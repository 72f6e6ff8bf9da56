//! The wire encoding of events.
//!
//! An event travels as one record: the number of its variant in four
//! bytes, its two texts, each as its length in eight bytes followed by its
//! UTF-8 bytes, then the seconds of its timestamp in eight bytes and the
//! nanoseconds in four. Every number is little-endian. Bytes that follow a
//! record are ignored.

use crate::event::{Event, EventView};
use crate::timestamp::{representable, Timestamp, TimestampView};
use vstd::bytes::{
    lemma_auto_spec_u32_to_from_le_bytes, lemma_auto_spec_u64_to_from_le_bytes,
    spec_u32_to_le_bytes, spec_u64_to_le_bytes,
};
use vstd::prelude::*;
use vstd::utf8::{encode_utf8, encode_utf8_decode_utf8};

verus! {

/// Why bytes were not accepted as an event.
#[derive(Clone, Copy, Debug, PartialEq, Eq, Structural)]
pub enum DecodeError {
    /// The bytes do not start with a record.
    Malformed,
    /// The record names a variant that events do not have.
    UnknownVariant,
    /// The record's timestamp is no instant of the calendar.
    InvalidTimestamp,
}

/// The fields of an event as they travel.
pub struct Record {
    pub tag: u32,
    pub first: Seq<char>,
    pub second: Seq<char>,
    pub secs: i64,
    pub nanos: u32,
}

/// A text on the wire: its length in bytes, then its UTF-8 bytes.
pub open spec fn wire_text(text: Seq<char>) -> Seq<u8> {
    spec_u64_to_le_bytes(encode_utf8(text).len() as u64) + encode_utf8(text)
}

/// Seconds on the wire: their two's complement in eight bytes.
pub open spec fn wire_secs(secs: i64) -> Seq<u8> {
    spec_u64_to_le_bytes(#[verifier::truncate] (secs as u64))
}

impl Record {
    /// The texts are short enough for their lengths to be written down.
    pub open spec fn fits(self) -> bool {
        encode_utf8(self.first).len() <= u64::MAX && encode_utf8(self.second).len() <= u64::MAX
    }

    /// The record on the wire.
    pub open spec fn wire(self) -> Seq<u8> {
        spec_u32_to_le_bytes(self.tag) + (wire_text(self.first) + (wire_text(self.second) + (
        wire_secs(self.secs) + spec_u32_to_le_bytes(self.nanos))))
    }

    /// The record that carries `event`.
    pub open spec fn of(event: EventView) -> Record {
        Record {
            tag: match event {
                EventView::Log { .. } => 0,
                EventView::DockerAction { .. } => 1,
            },
            first: event.container_name(),
            second: event.detail(),
            secs: event.timestamp().secs as i64,
            nanos: event.timestamp().nanos as u32,
        }
    }

    /// The event that the record carries, or why it carries none.
    pub open spec fn event(self) -> Result<EventView, DecodeError> {
        if self.tag > 1 {
            Err(DecodeError::UnknownVariant)
        } else if !representable(self.secs as int, self.nanos as int) {
            Err(DecodeError::InvalidTimestamp)
        } else if self.tag == 0 {
            Ok(
                EventView::Log {
                    container_name: self.first,
                    message: self.second,
                    timestamp: TimestampView { secs: self.secs as int, nanos: self.nanos as int },
                },
            )
        } else {
            Ok(
                EventView::DockerAction {
                    container_name: self.first,
                    action: self.second,
                    timestamp: TimestampView { secs: self.secs as int, nanos: self.nanos as int },
                },
            )
        }
    }
}

/// Whether `record` is what `bytes` start with.
pub open spec fn starts_with(bytes: Seq<u8>, record: Record) -> bool {
    record.fits() && record.wire().is_prefix_of(bytes)
}

/// Whether an event is one that travels: its texts fit and its timestamp
/// is an instant of the calendar. Every [`Event`] is.
pub open spec fn sendable(event: EventView) -> bool {
    &&& Record::of(event).fits()
    &&& event.timestamp().representable()
}

/// The bytes that carry `event`.
pub open spec fn encode(event: EventView) -> Seq<u8> {
    Record::of(event).wire()
}

/// The event that `bytes` carry, or why they carry none.
pub open spec fn decode(bytes: Seq<u8>) -> Result<EventView, DecodeError> {
    if exists|record: Record| starts_with(bytes, record) {
        (choose|record: Record| starts_with(bytes, record)).event()
    } else {
        Err(DecodeError::Malformed)
    }
}

/// Writes a record with `bincode::serialize`, applied to the five fields
/// as a tuple. With the options of that function, bincode writes a tuple
/// as its fields in order, an integer in its own width and little-endian,
/// a signed one as its two's complement, and a text as its length in
/// eight bytes followed by its UTF-8 bytes. Nothing in it fails for such
/// a tuple: there is no size limit, and the bytes go to a vector.
#[verifier::external_body]
fn write_record(tag: u32, first: &String, second: &String, secs: i64, nanos: u32) -> (bytes: Vec<u8>)
    ensures
        bytes@ == (Record { tag, first: first@, second: second@, secs, nanos }).wire(),
{
    bincode::serialize(&(tag, first, second, secs, nanos)).unwrap()
}

/// Reads a record with `bincode::deserialize`, as a tuple of the five
/// fields. With the options of that function, bincode reads the fields in
/// order from the start of the bytes and lets bytes that follow them be.
/// It fails where the bytes end before a field does or where a text is
/// not UTF-8; so it succeeds wherever the bytes start with a record.
#[verifier::external_body]
fn read_record(bytes: &[u8]) -> (fields: Option<(u32, String, String, i64, u32)>)
    ensures
        match fields {
            Some((tag, first, second, secs, nanos)) => (Record {
                tag,
                first: first@,
                second: second@,
                secs,
                nanos,
            }).wire().is_prefix_of(bytes@),
            None => forall|record: Record| !starts_with(bytes@, record),
        },
{
    bincode::deserialize::<(u32, String, String, i64, u32)>(bytes).ok()
}

/// Where `head + tail` starts `bytes`, `head` is the start of `bytes` and
/// `tail` starts what follows it.
proof fn lemma_split_prefix(head: Seq<u8>, tail: Seq<u8>, bytes: Seq<u8>)
    requires
        (head + tail).is_prefix_of(bytes),
    ensures
        head.len() <= bytes.len(),
        head == bytes.subrange(0, head.len() as int),
        tail.is_prefix_of(bytes.skip(head.len() as int)),
{
    let whole = head + tail;
    assert forall|i: int| 0 <= i < head.len() implies head[i] == bytes[i] by {
        assert(whole[i] == bytes.subrange(0, whole.len() as int)[i]);
    }
    let rest = bytes.skip(head.len() as int);
    assert forall|i: int| 0 <= i < tail.len() implies tail[i] == rest[i] by {
        assert(whole[head.len() + i] == bytes.subrange(0, whole.len() as int)[head.len() + i]);
    }
}

/// Two texts that fit, each followed by something, start the same bytes
/// only if they are one text; what follows them then starts the same
/// bytes too.
proof fn lemma_same_text(
    a: Seq<char>,
    a_tail: Seq<u8>,
    b: Seq<char>,
    b_tail: Seq<u8>,
    bytes: Seq<u8>,
)
    requires
        encode_utf8(a).len() <= u64::MAX,
        encode_utf8(b).len() <= u64::MAX,
        (wire_text(a) + a_tail).is_prefix_of(bytes),
        (wire_text(b) + b_tail).is_prefix_of(bytes),
    ensures
        a == b,
        a_tail.is_prefix_of(bytes.skip(wire_text(a).len() as int)),
        b_tail.is_prefix_of(bytes.skip(wire_text(a).len() as int)),
{
    lemma_auto_spec_u64_to_from_le_bytes();
    lemma_split_prefix(wire_text(a), a_tail, bytes);
    lemma_split_prefix(wire_text(b), b_tail, bytes);
    let a_len = spec_u64_to_le_bytes(encode_utf8(a).len() as u64);
    let b_len = spec_u64_to_le_bytes(encode_utf8(b).len() as u64);
    lemma_split_prefix(a_len, encode_utf8(a), bytes);
    lemma_split_prefix(b_len, encode_utf8(b), bytes);
    encode_utf8_decode_utf8(a);
    encode_utf8_decode_utf8(b);
}

/// A signed number is known by its two's complement.
proof fn lemma_twos_complement(a: i64, b: i64)
    by (bit_vector)
    requires
        #[verifier::truncate] (a as u64) == #[verifier::truncate] (b as u64),
    ensures
        a == b,
{
}

/// Bytes start with one record at most.
pub proof fn lemma_one_record(bytes: Seq<u8>, a: Record, b: Record)
    requires
        starts_with(bytes, a),
        starts_with(bytes, b),
    ensures
        a == b,
{
    lemma_auto_spec_u32_to_from_le_bytes();
    lemma_auto_spec_u64_to_from_le_bytes();
    // The record is taken apart from the front: after each field, what
    // is left of both records starts what is left of the bytes.
    let a3 = wire_secs(a.secs) + spec_u32_to_le_bytes(a.nanos);
    let b3 = wire_secs(b.secs) + spec_u32_to_le_bytes(b.nanos);
    let a2 = wire_text(a.second) + a3;
    let b2 = wire_text(b.second) + b3;
    let a1 = wire_text(a.first) + a2;
    let b1 = wire_text(b.first) + b2;
    lemma_split_prefix(spec_u32_to_le_bytes(a.tag), a1, bytes);
    lemma_split_prefix(spec_u32_to_le_bytes(b.tag), b1, bytes);
    let bytes1 = bytes.skip(4);
    lemma_same_text(a.first, a2, b.first, b2, bytes1);
    let bytes2 = bytes1.skip(wire_text(a.first).len() as int);
    lemma_same_text(a.second, a3, b.second, b3, bytes2);
    let bytes3 = bytes2.skip(wire_text(a.second).len() as int);
    lemma_split_prefix(wire_secs(a.secs), spec_u32_to_le_bytes(a.nanos), bytes3);
    lemma_split_prefix(wire_secs(b.secs), spec_u32_to_le_bytes(b.nanos), bytes3);
    lemma_twos_complement(a.secs, b.secs);
}

/// The number of bytes that `text` takes as UTF-8. A text in memory has
/// fewer than can be counted in eight bytes.
fn byte_len(text: &String) -> (len: usize)
    ensures
        len == encode_utf8(text@).len(),
{
    text.as_str().as_bytes().len()
}

impl Event {
    /// The bytes that carry the event. Decoding them gives the event back.
    pub fn to_bytes(&self) -> (bytes: Vec<u8>)
        ensures
            bytes@ == encode(self@),
            sendable(self@),
            decode(bytes@) == Ok::<EventView, DecodeError>(self@),
    {
        // The lengths are taken for the proof alone: they show that the
        // texts, being in memory, fit.
        let bytes = match self {
            Event::Log { container_name, message, timestamp } => {
                let _ = byte_len(container_name);
                let _ = byte_len(message);
                write_record(0, container_name, message, timestamp.secs(), timestamp.nanos())
            },
            Event::DockerAction { container_name, action, timestamp } => {
                let _ = byte_len(container_name);
                let _ = byte_len(action);
                write_record(1, container_name, action, timestamp.secs(), timestamp.nanos())
            },
        };
        proof {
            lemma_round_trip(self@, Seq::empty());
        }
        bytes
    }

    /// The event that `bytes` carry. Bytes that do not start with a record
    /// are rejected, and so is a record that names no variant or no instant.
    pub fn from_bytes(bytes: &[u8]) -> (result: Result<Event, DecodeError>)
        ensures
            match result {
                Ok(event) => decode(bytes@) == Ok::<EventView, DecodeError>(event@),
                Err(error) => decode(bytes@) == Err::<EventView, DecodeError>(error),
            },
    {
        match read_record(bytes) {
            None => Err(DecodeError::Malformed),
            Some((tag, first, second, secs, nanos)) => {
                let _ = byte_len(&first);
                let _ = byte_len(&second);
                proof {
                    let record = Record { tag, first: first@, second: second@, secs, nanos };
                    lemma_decode_record(bytes@, record);
                }
                if tag > 1 {
                    return Err(DecodeError::UnknownVariant);
                }
                match Timestamp::new(secs, nanos) {
                    None => Err(DecodeError::InvalidTimestamp),
                    Some(timestamp) => if tag == 0 {
                        Ok(Event::Log { container_name: first, message: second, timestamp })
                    } else {
                        Ok(Event::DockerAction { container_name: first, action: second, timestamp })
                    },
                }
            },
        }
    }
}

/// What bytes that start with `record` carry is what `record` carries.
pub proof fn lemma_decode_record(bytes: Seq<u8>, record: Record)
    requires
        starts_with(bytes, record),
    ensures
        decode(bytes) == record.event(),
{
    let chosen = choose|r: Record| starts_with(bytes, r);
    lemma_one_record(bytes, chosen, record);
}

/// Decoding undoes encoding: the bytes of an event carry that event, and
/// so do they with whatever bytes follow.
pub proof fn lemma_round_trip(event: EventView, trailing: Seq<u8>)
    requires
        sendable(event),
    ensures
        decode(encode(event)) == Ok::<EventView, DecodeError>(event),
        decode(encode(event) + trailing) == Ok::<EventView, DecodeError>(event),
{
    let record = Record::of(event);
    lemma_decode_record(encode(event), record);
    lemma_decode_record(encode(event) + trailing, record);
}

} // verus!
