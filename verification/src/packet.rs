//! Wire format: a fixed 28-byte header followed by the payload.
use vstd::prelude::*;
use vstd::string::StringExecFns;

verus! {

/// Protocol version written into every header.
pub const VERSION: u8 = 1;

pub const TYPE_DATA: u8 = 0;
pub const TYPE_ACK: u8 = 1;
pub const TYPE_SYN: u8 = 2;
pub const TYPE_SYN_ACK: u8 = 3;
pub const TYPE_CLOSE: u8 = 4;
pub const TYPE_CLOSE_ACK: u8 = 5;

/// Length of the fixed header in bytes.
pub const HEADER_LEN: usize = 28;

/// Delivery class carried by every packet.
#[derive(Debug, Clone, Copy, PartialEq, Eq, Structural)]
pub enum Reliability {
    BestEffort,
    Important,
    Guaranteed,
}

/// The wire code of each reliability class.
pub open spec fn reliability_code(r: Reliability) -> u8 {
    match r {
        Reliability::BestEffort => 0,
        Reliability::Important => 1,
        Reliability::Guaranteed => 2,
    }
}

/// The class a wire code stands for, if any.
pub open spec fn reliability_of_code(value: u8) -> Option<Reliability> {
    if value == 0 {
        Some(Reliability::BestEffort)
    } else if value == 1 {
        Some(Reliability::Important)
    } else if value == 2 {
        Some(Reliability::Guaranteed)
    } else {
        None
    }
}

/// The class named by a word typed at the client prompt.
pub open spec fn reliability_of_word(word: Seq<char>) -> Option<Reliability> {
    if word == "be"@ {
        Some(Reliability::BestEffort)
    } else if word == "important"@ {
        Some(Reliability::Important)
    } else if word == "guaranteed"@ {
        Some(Reliability::Guaranteed)
    } else {
        None
    }
}

/// The name a reliability class is shown by.
pub open spec fn reliability_name(r: Reliability) -> Seq<char> {
    match r {
        Reliability::BestEffort => "BestEffort"@,
        Reliability::Important => "Important"@,
        Reliability::Guaranteed => "Guaranteed"@,
    }
}

impl Reliability {
    /// The name the class is shown by in status lines.
    pub fn name(self) -> (r: &'static str)
        ensures
            r@ == reliability_name(self),
    {
        match self {
            Reliability::BestEffort => "BestEffort",
            Reliability::Important => "Important",
            Reliability::Guaranteed => "Guaranteed",
        }
    }

    /// The class's code on the wire.
    pub fn to_u8(self) -> (code: u8)
        ensures
            code == reliability_code(self),
    {
        match self {
            Reliability::BestEffort => 0,
            Reliability::Important => 1,
            Reliability::Guaranteed => 2,
        }
    }

    /// The class a wire code stands for; `None` for an unknown code.
    pub fn from_u8(value: u8) -> (r: Option<Self>)
        ensures
            r == reliability_of_code(value),
    {
        match value {
            0 => Some(Reliability::BestEffort),
            1 => Some(Reliability::Important),
            2 => Some(Reliability::Guaranteed),
            _ => None,
        }
    }

    /// Reads `be`, `important` or `guaranteed`.
    pub fn parse(word: &str) -> (r: Option<Self>)
        ensures
            r == reliability_of_word(word@),
    {
        if crate::text::str_equals(word, "be") {
            Some(Reliability::BestEffort)
        } else if crate::text::str_equals(word, "important") {
            Some(Reliability::Important)
        } else if crate::text::str_equals(word, "guaranteed") {
            Some(Reliability::Guaranteed)
        } else {
            None
        }
    }
}

/// A decoded packet.
pub struct Packet {
    pub version: u8,
    pub ptype: u8,
    pub reliability: Reliability,
    pub priority: u8,
    pub connection_id: u32,
    pub stream_id: u32,
    pub seq: u32,
    pub ack: u32,
    pub timestamp_us: u64,
    pub payload: Vec<u8>,
}

/// Big-endian bytes of a 32-bit value.
pub open spec fn be_u32_bytes(x: u32) -> Seq<u8> {
    seq![(x >> 24u32) as u8, (x >> 16u32) as u8, (x >> 8u32) as u8, x as u8]
}

/// Big-endian bytes of a 64-bit value.
pub open spec fn be_u64_bytes(x: u64) -> Seq<u8> {
    seq![
        (x >> 56u64) as u8,
        (x >> 48u64) as u8,
        (x >> 40u64) as u8,
        (x >> 32u64) as u8,
        (x >> 24u64) as u8,
        (x >> 16u64) as u8,
        (x >> 8u64) as u8,
        x as u8,
    ]
}

/// The 32-bit value whose big-endian bytes are `b0 b1 b2 b3`.
pub open spec fn be_u32_value(b0: u8, b1: u8, b2: u8, b3: u8) -> u32 {
    ((b0 as u32) << 24u32) | ((b1 as u32) << 16u32) | ((b2 as u32) << 8u32) | (b3 as u32)
}

/// The 64-bit value whose big-endian bytes are `b0 .. b7`.
pub open spec fn be_u64_value(
    b0: u8,
    b1: u8,
    b2: u8,
    b3: u8,
    b4: u8,
    b5: u8,
    b6: u8,
    b7: u8,
) -> u64 {
    ((b0 as u64) << 56u64) | ((b1 as u64) << 48u64) | ((b2 as u64) << 40u64) | ((b3 as u64)
        << 32u64) | ((b4 as u64) << 24u64) | ((b5 as u64) << 16u64) | ((b6 as u64) << 8u64) | (
    b7 as u64)
}

/// The 32-bit big-endian field starting at `at`.
pub open spec fn field_u32(buf: Seq<u8>, at: int) -> u32 {
    be_u32_value(buf[at], buf[at + 1], buf[at + 2], buf[at + 3])
}

/// The 64-bit big-endian field starting at `at`.
pub open spec fn field_u64(buf: Seq<u8>, at: int) -> u64 {
    be_u64_value(
        buf[at],
        buf[at + 1],
        buf[at + 2],
        buf[at + 3],
        buf[at + 4],
        buf[at + 5],
        buf[at + 6],
        buf[at + 7],
    )
}

/// The bytes of a packet: header in the documented field order, then the payload.
pub open spec fn packet_bytes(
    ptype: u8,
    reliability: Reliability,
    priority: u8,
    connection_id: u32,
    stream_id: u32,
    seq: u32,
    ack: u32,
    timestamp_us: u64,
    payload: Seq<u8>,
) -> Seq<u8> {
    seq![VERSION, ptype, reliability_code(reliability), priority] + be_u32_bytes(connection_id)
        + be_u32_bytes(stream_id) + be_u32_bytes(seq) + be_u32_bytes(ack) + be_u64_bytes(
        timestamp_us,
    ) + payload
}

/// A buffer is accepted by the decoder exactly when it holds a full header
/// whose reliability byte is a known code.
pub open spec fn decodable(buf: Seq<u8>) -> bool {
    buf.len() >= HEADER_LEN && buf[2] <= 2
}

/// What a decoded packet holds of the buffer it came from.
pub open spec fn decoded_from(p: Packet, buf: Seq<u8>) -> bool {
    &&& p.version == buf[0]
    &&& p.ptype == buf[1]
    &&& reliability_of_code(buf[2]) == Some(p.reliability)
    &&& p.priority == buf[3]
    &&& p.connection_id == field_u32(buf, 4)
    &&& p.stream_id == field_u32(buf, 8)
    &&& p.seq == field_u32(buf, 12)
    &&& p.ack == field_u32(buf, 16)
    &&& p.timestamp_us == field_u64(buf, 20)
    &&& p.payload@ == buf.subrange(HEADER_LEN as int, buf.len() as int)
}

proof fn lemma_be_u32_roundtrip(x: u32)
    ensures
        be_u32_value((x >> 24u32) as u8, (x >> 16u32) as u8, (x >> 8u32) as u8, x as u8) == x,
{
    assert(((((x >> 24u32) as u8) as u32) << 24u32) | ((((x >> 16u32) as u8) as u32) << 16u32)
        | ((((x >> 8u32) as u8) as u32) << 8u32) | ((x as u8) as u32) == x) by (bit_vector);
}

proof fn lemma_be_u64_roundtrip(x: u64)
    ensures
        be_u64_value(
            (x >> 56u64) as u8,
            (x >> 48u64) as u8,
            (x >> 40u64) as u8,
            (x >> 32u64) as u8,
            (x >> 24u64) as u8,
            (x >> 16u64) as u8,
            (x >> 8u64) as u8,
            x as u8,
        ) == x,
{
    assert(((((x >> 56u64) as u8) as u64) << 56u64) | ((((x >> 48u64) as u8) as u64) << 48u64)
        | ((((x >> 40u64) as u8) as u64) << 40u64) | ((((x >> 32u64) as u8) as u64) << 32u64)
        | ((((x >> 24u64) as u8) as u64) << 24u64) | ((((x >> 16u64) as u8) as u64) << 16u64)
        | ((((x >> 8u64) as u8) as u64) << 8u64) | ((x as u8) as u64) == x) by (bit_vector);
}

proof fn lemma_be_u32_bytes_of_value(b0: u8, b1: u8, b2: u8, b3: u8)
    ensures
        be_u32_bytes(be_u32_value(b0, b1, b2, b3)) == seq![b0, b1, b2, b3],
{
    let v = be_u32_value(b0, b1, b2, b3);
    assert((((((b0 as u32) << 24u32) | ((b1 as u32) << 16u32) | ((b2 as u32) << 8u32) | (
    b3 as u32)) >> 24u32) as u8) == b0) by (bit_vector);
    assert((((((b0 as u32) << 24u32) | ((b1 as u32) << 16u32) | ((b2 as u32) << 8u32) | (
    b3 as u32)) >> 16u32) as u8) == b1) by (bit_vector);
    assert((((((b0 as u32) << 24u32) | ((b1 as u32) << 16u32) | ((b2 as u32) << 8u32) | (
    b3 as u32)) >> 8u32) as u8) == b2) by (bit_vector);
    assert(((((b0 as u32) << 24u32) | ((b1 as u32) << 16u32) | ((b2 as u32) << 8u32) | (
    b3 as u32)) as u8) == b3) by (bit_vector);
    assert(be_u32_bytes(v) =~= seq![b0, b1, b2, b3]);
}

proof fn lemma_be_u64_bytes_of_value(
    b0: u8,
    b1: u8,
    b2: u8,
    b3: u8,
    b4: u8,
    b5: u8,
    b6: u8,
    b7: u8,
)
    ensures
        be_u64_bytes(be_u64_value(b0, b1, b2, b3, b4, b5, b6, b7)) == seq![
            b0,
            b1,
            b2,
            b3,
            b4,
            b5,
            b6,
            b7,
        ],
{
    let v = be_u64_value(b0, b1, b2, b3, b4, b5, b6, b7);
    assert(v == ((b0 as u64) << 56u64) | ((b1 as u64) << 48u64) | ((b2 as u64) << 40u64) | ((
    b3 as u64) << 32u64) | ((b4 as u64) << 24u64) | ((b5 as u64) << 16u64) | ((b6 as u64)
        << 8u64) | (b7 as u64));
    assert(((v >> 56u64) as u8) == b0 && ((v >> 48u64) as u8) == b1 && ((v >> 40u64) as u8) == b2
        && ((v >> 32u64) as u8) == b3 && ((v >> 24u64) as u8) == b4 && ((v >> 16u64) as u8) == b5
        && ((v >> 8u64) as u8) == b6 && (v as u8) == b7) by (bit_vector)
        requires
            v == ((b0 as u64) << 56u64) | ((b1 as u64) << 48u64) | ((b2 as u64) << 40u64) | ((
            b3 as u64) << 32u64) | ((b4 as u64) << 24u64) | ((b5 as u64) << 16u64) | ((b6 as u64)
                << 8u64) | (b7 as u64),
    ;
    assert(be_u64_bytes(v) =~= seq![b0, b1, b2, b3, b4, b5, b6, b7]);
}

/// Reads the system clock in microseconds since the Unix epoch.
#[verifier::external_body]
pub(crate) fn clock_micros() -> Option<u128> {
    match std::time::SystemTime::now().duration_since(std::time::UNIX_EPOCH) {
        Ok(d) => Some(d.as_micros()),
        Err(_) => None,
    }
}

/// A clock reading in microseconds since the epoch, truncated to 64 bits; 0
/// when there is none (the clock stands before the epoch).
pub open spec fn micros_truncated(micros: Option<u128>) -> u64 {
    match micros {
        Some(m) => m as u64,
        None => 0,
    }
}

/// Turns a clock reading into a 64-bit microsecond count, truncating.
pub fn micros_from_clock(micros: Option<u128>) -> (r: u64)
    ensures
        r == micros_truncated(micros),
{
    match micros {
        Some(m) => m as u64,
        None => 0,
    }
}

/// Microseconds since the Unix epoch, truncated to 64 bits; 0 when the clock
/// stands before the epoch.
pub fn now_us() -> u64 {
    micros_from_clock(clock_micros())
}

fn push_be_u32(buffer: &mut Vec<u8>, x: u32)
    ensures
        final(buffer)@ == old(buffer)@ + be_u32_bytes(x),
{
    buffer.push((x >> 24u32) as u8);
    buffer.push((x >> 16u32) as u8);
    buffer.push((x >> 8u32) as u8);
    buffer.push(x as u8);
    assert(buffer@ =~= old(buffer)@ + be_u32_bytes(x));
}

fn push_be_u64(buffer: &mut Vec<u8>, x: u64)
    ensures
        final(buffer)@ == old(buffer)@ + be_u64_bytes(x),
{
    buffer.push((x >> 56u64) as u8);
    buffer.push((x >> 48u64) as u8);
    buffer.push((x >> 40u64) as u8);
    buffer.push((x >> 32u64) as u8);
    buffer.push((x >> 24u64) as u8);
    buffer.push((x >> 16u64) as u8);
    buffer.push((x >> 8u64) as u8);
    buffer.push(x as u8);
    assert(buffer@ =~= old(buffer)@ + be_u64_bytes(x));
}

/// Encodes a packet stamped with the given send time.
pub fn encode_packet_with_timestamp(
    ptype: u8,
    reliability: Reliability,
    priority: u8,
    connection_id: u32,
    stream_id: u32,
    seq: u32,
    ack: u32,
    timestamp_us: u64,
    payload: &[u8],
) -> (buffer: Vec<u8>)
    ensures
        buffer@ == packet_bytes(
            ptype,
            reliability,
            priority,
            connection_id,
            stream_id,
            seq,
            ack,
            timestamp_us,
            payload@,
        ),
{
    let mut buffer: Vec<u8> = Vec::new();
    buffer.push(VERSION);
    buffer.push(ptype);
    buffer.push(reliability.to_u8());
    buffer.push(priority);
    push_be_u32(&mut buffer, connection_id);
    push_be_u32(&mut buffer, stream_id);
    push_be_u32(&mut buffer, seq);
    push_be_u32(&mut buffer, ack);
    push_be_u64(&mut buffer, timestamp_us);
    let ghost header = buffer@;
    buffer.extend_from_slice(payload);
    assert(buffer@ =~= header + payload@);
    buffer
}

/// Encodes a packet stamped with the current time.
pub fn encode_packet(
    ptype: u8,
    reliability: Reliability,
    priority: u8,
    connection_id: u32,
    stream_id: u32,
    seq: u32,
    ack: u32,
    payload: &[u8],
) -> (buffer: Vec<u8>)
    ensures
        exists|timestamp_us: u64|
            buffer@ == packet_bytes(
                ptype,
                reliability,
                priority,
                connection_id,
                stream_id,
                seq,
                ack,
                timestamp_us,
                payload@,
            ),
{
    let timestamp_us = now_us();
    encode_packet_with_timestamp(
        ptype,
        reliability,
        priority,
        connection_id,
        stream_id,
        seq,
        ack,
        timestamp_us,
        payload,
    )
}

/// Decodes a packet; fails on a short buffer or an unknown reliability code.
pub fn decode_packet(buffer: &[u8]) -> (r: Result<Packet, String>)
    ensures
        r is Ok <==> decodable(buffer@),
        r matches Ok(p) ==> decoded_from(p, buffer@),
        r matches Err(e) ==> e@ == (if buffer@.len() < HEADER_LEN {
            "packet too short"@
        } else {
            "invalid reliability value"@
        }),
{
    if buffer.len() < HEADER_LEN {
        return Err(String::from_str("packet too short"));
    }
    let version = buffer[0];
    let ptype = buffer[1];
    let reliability = match Reliability::from_u8(buffer[2]) {
        Some(r) => r,
        None => {
            return Err(String::from_str("invalid reliability value"));
        },
    };
    let priority = buffer[3];
    let connection_id = read_be_u32(buffer, 4);
    let stream_id = read_be_u32(buffer, 8);
    let seq = read_be_u32(buffer, 12);
    let ack = read_be_u32(buffer, 16);
    let timestamp_us = read_be_u64(buffer, 20);
    let payload = vstd::slice::slice_to_vec(
        vstd::slice::slice_subrange(buffer, HEADER_LEN, buffer.len()),
    );
    Ok(
        Packet {
            version,
            ptype,
            reliability,
            priority,
            connection_id,
            stream_id,
            seq,
            ack,
            timestamp_us,
            payload,
        },
    )
}

fn read_be_u32(buffer: &[u8], at: usize) -> (v: u32)
    requires
        at + 4 <= buffer@.len(),
    ensures
        v == field_u32(buffer@, at as int),
{
    ((buffer[at] as u32) << 24u32) | ((buffer[at + 1] as u32) << 16u32) | ((buffer[at + 2] as u32)
        << 8u32) | (buffer[at + 3] as u32)
}

fn read_be_u64(buffer: &[u8], at: usize) -> (v: u64)
    requires
        at + 8 <= buffer@.len(),
    ensures
        v == field_u64(buffer@, at as int),
{
    ((buffer[at] as u64) << 56u64) | ((buffer[at + 1] as u64) << 48u64) | ((buffer[at + 2] as u64)
        << 40u64) | ((buffer[at + 3] as u64) << 32u64) | ((buffer[at + 4] as u64) << 24u64) | ((
    buffer[at + 5] as u64) << 16u64) | ((buffer[at + 6] as u64) << 8u64) | (buffer[at
        + 7] as u64)
}

/// Decoding an encoded packet gives back every field that was encoded, the
/// protocol version, and the send time that was stamped.
pub proof fn lemma_decode_encoded(
    ptype: u8,
    reliability: Reliability,
    priority: u8,
    connection_id: u32,
    stream_id: u32,
    seq: u32,
    ack: u32,
    timestamp_us: u64,
    payload: Seq<u8>,
)
    ensures
        ({
            let buf = packet_bytes(
                ptype,
                reliability,
                priority,
                connection_id,
                stream_id,
                seq,
                ack,
                timestamp_us,
                payload,
            );
            &&& decodable(buf)
            &&& buf[0] == VERSION
            &&& buf[1] == ptype
            &&& reliability_of_code(buf[2]) == Some(reliability)
            &&& buf[3] == priority
            &&& field_u32(buf, 4) == connection_id
            &&& field_u32(buf, 8) == stream_id
            &&& field_u32(buf, 12) == seq
            &&& field_u32(buf, 16) == ack
            &&& field_u64(buf, 20) == timestamp_us
            &&& buf.subrange(HEADER_LEN as int, buf.len() as int) == payload
        }),
{
    let buf = packet_bytes(
        ptype,
        reliability,
        priority,
        connection_id,
        stream_id,
        seq,
        ack,
        timestamp_us,
        payload,
    );
    lemma_be_u32_roundtrip(connection_id);
    lemma_be_u32_roundtrip(stream_id);
    lemma_be_u32_roundtrip(seq);
    lemma_be_u32_roundtrip(ack);
    lemma_be_u64_roundtrip(timestamp_us);
    assert(buf.len() == 28 + payload.len());
    assert(buf.subrange(28, buf.len() as int) =~= payload);
}

/// Every decodable buffer that carries the current version is the encoding of
/// what the decoder reads from it.
pub proof fn lemma_encode_decoded(buf: Seq<u8>)
    requires
        decodable(buf),
        buf[0] == VERSION,
    ensures
        packet_bytes(
            buf[1],
            reliability_of_code(buf[2])->0,
            buf[3],
            field_u32(buf, 4),
            field_u32(buf, 8),
            field_u32(buf, 12),
            field_u32(buf, 16),
            field_u64(buf, 20),
            buf.subrange(HEADER_LEN as int, buf.len() as int),
        ) == buf,
{
    lemma_be_u32_bytes_of_value(buf[4], buf[5], buf[6], buf[7]);
    lemma_be_u32_bytes_of_value(buf[8], buf[9], buf[10], buf[11]);
    lemma_be_u32_bytes_of_value(buf[12], buf[13], buf[14], buf[15]);
    lemma_be_u32_bytes_of_value(buf[16], buf[17], buf[18], buf[19]);
    lemma_be_u64_bytes_of_value(
        buf[20],
        buf[21],
        buf[22],
        buf[23],
        buf[24],
        buf[25],
        buf[26],
        buf[27],
    );
    let enc = packet_bytes(
        buf[1],
        reliability_of_code(buf[2])->0,
        buf[3],
        field_u32(buf, 4),
        field_u32(buf, 8),
        field_u32(buf, 12),
        field_u32(buf, 16),
        field_u64(buf, 20),
        buf.subrange(HEADER_LEN as int, buf.len() as int),
    );
    assert(reliability_code(reliability_of_code(buf[2])->0) == buf[2]);
    assert(enc =~= buf);
}


/// A packet read back from the bytes it was encoded to carries the current
/// version and exactly the fields, send time and payload that were encoded.
pub proof fn lemma_roundtrip(
    p: Packet,
    ptype: u8,
    reliability: Reliability,
    priority: u8,
    connection_id: u32,
    stream_id: u32,
    seq: u32,
    ack: u32,
    timestamp_us: u64,
    payload: Seq<u8>,
)
    requires
        decoded_from(
            p,
            packet_bytes(
                ptype,
                reliability,
                priority,
                connection_id,
                stream_id,
                seq,
                ack,
                timestamp_us,
                payload,
            ),
        ),
    ensures
        p.version == VERSION,
        p.ptype == ptype,
        p.reliability == reliability,
        p.priority == priority,
        p.connection_id == connection_id,
        p.stream_id == stream_id,
        p.seq == seq,
        p.ack == ack,
        p.timestamp_us == timestamp_us,
        p.payload@ == payload,
{
    lemma_decode_encoded(
        ptype,
        reliability,
        priority,
        connection_id,
        stream_id,
        seq,
        ack,
        timestamp_us,
        payload,
    );
    assert(reliability_of_code(reliability_code(reliability)) == Some(reliability));
}

/// Every encoding is the 28-byte header followed by the payload.
pub proof fn lemma_encoded_length(
    ptype: u8,
    reliability: Reliability,
    priority: u8,
    connection_id: u32,
    stream_id: u32,
    seq: u32,
    ack: u32,
    timestamp_us: u64,
    payload: Seq<u8>,
)
    ensures
        packet_bytes(
            ptype,
            reliability,
            priority,
            connection_id,
            stream_id,
            seq,
            ack,
            timestamp_us,
            payload,
        ).len() == HEADER_LEN + payload.len(),
{
}

/// The wire code of a class reads back as that class, and only the codes
/// 0, 1 and 2 name a class.
pub proof fn lemma_reliability_code_roundtrip(r: Reliability, value: u8)
    ensures
        reliability_of_code(reliability_code(r)) == Some(r),
        reliability_of_code(value) matches Some(c) ==> reliability_code(c) == value,
        reliability_of_code(value) is None <==> value > 2,
{
}

} // verus!
