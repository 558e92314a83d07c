//! The Bilibili live-room WebSocket protocol: packet framing and the
//! messages carried in packets.
//!
//! A packet is a 16-byte big-endian header (packet length, header length,
//! protocol version, operation code, sequence id) followed by the body.
//! Bodies of protocol versions 2 (zlib) and 3 (brotli) are compressed and
//! hold further packets.

use vstd::prelude::*;
use crate::json::{self, JsonValue};
use crate::text;
use std::io::Read;

verus! {

/// Header size in bytes.
pub const HEADER_SIZE: usize = 16;

/// Operation codes.
#[derive(Debug, Clone, Copy, PartialEq, Eq, Structural)]
pub enum OpCode {
    Heartbeat,
    HeartbeatReply,
    Message,
    Auth,
    AuthReply,
}

/// The code carried on the wire for each operation.
pub open spec fn op_code_value(op: OpCode) -> u32 {
    match op {
        OpCode::Heartbeat => 2,
        OpCode::HeartbeatReply => 3,
        OpCode::Message => 5,
        OpCode::Auth => 7,
        OpCode::AuthReply => 8,
    }
}

/// A code that names no operation.
#[derive(Debug, Clone, Copy, PartialEq, Eq)]
pub struct UnknownOpCode(pub u32);

impl OpCode {
    /// The code carried on the wire.
    pub fn value(self) -> (res: u32)
        ensures
            res == op_code_value(self),
    {
        match self {
            OpCode::Heartbeat => 2,
            OpCode::HeartbeatReply => 3,
            OpCode::Message => 5,
            OpCode::Auth => 7,
            OpCode::AuthReply => 8,
        }
    }

    /// The operation with wire code `value`.
    pub fn try_from(value: u32) -> (res: Result<OpCode, UnknownOpCode>)
        ensures
            match res {
                Ok(op) => op_code_value(op) == value,
                Err(e) => e.0 == value && !(value == 2 || value == 3 || value == 5 || value == 7
                    || value == 8),
            },
    {
        if value == 2 {
            Ok(OpCode::Heartbeat)
        } else if value == 3 {
            Ok(OpCode::HeartbeatReply)
        } else if value == 5 {
            Ok(OpCode::Message)
        } else if value == 7 {
            Ok(OpCode::Auth)
        } else if value == 8 {
            Ok(OpCode::AuthReply)
        } else {
            Err(UnknownOpCode(value))
        }
    }
}

/// Protocol version.
#[derive(Debug, Clone, Copy, PartialEq, Eq, Structural)]
pub enum ProtoVer {
    Raw,
    Zlib,
    Brotli,
}

impl ProtoVer {
    /// The version number carried on the wire.
    pub fn value(self) -> (res: u16)
        ensures
            res == (match self {
                ProtoVer::Raw => 0u16,
                ProtoVer::Zlib => 2u16,
                ProtoVer::Brotli => 3u16,
            }),
    {
        match self {
            ProtoVer::Raw => 0,
            ProtoVer::Zlib => 2,
            ProtoVer::Brotli => 3,
        }
    }
}

/// A packet: protocol version, operation code, sequence id and body.
#[derive(Debug, Clone)]
pub struct Packet {
    pub proto_ver: u16,
    pub op_code: u32,
    pub seq_id: u32,
    pub body: Vec<u8>,
}

/// A packet as a mathematical value.
pub struct PacketModel {
    pub proto_ver: u16,
    pub op_code: u32,
    pub seq_id: u32,
    pub body: Seq<u8>,
}

impl View for Packet {
    type V = PacketModel;

    open spec fn view(&self) -> PacketModel {
        PacketModel {
            proto_ver: self.proto_ver,
            op_code: self.op_code,
            seq_id: self.seq_id,
            body: self.body@,
        }
    }
}

pub open spec fn packets_view(ps: Seq<Packet>) -> Seq<PacketModel> {
    ps.map_values(|p: Packet| p@)
}

// ---------------------------------------------------------------------------
// Big-endian fields
// ---------------------------------------------------------------------------

pub open spec fn be_u32_bytes(v: u32) -> Seq<u8> {
    seq![(v >> 24u32) as u8, ((v >> 16u32) & 0xffu32) as u8, ((v >> 8u32) & 0xffu32) as u8,
        (v & 0xffu32) as u8]
}

pub open spec fn be_u16_bytes(v: u16) -> Seq<u8> {
    seq![(v >> 8u16) as u8, (v & 0xffu16) as u8]
}

pub open spec fn read_be_u32(s: Seq<u8>, i: int) -> u32 {
    ((s[i] as u32) << 24u32) | ((s[i + 1] as u32) << 16u32) | ((s[i + 2] as u32) << 8u32)
        | (s[i + 3] as u32)
}

pub open spec fn read_be_u16(s: Seq<u8>, i: int) -> u16 {
    ((s[i] as u16) << 8u16) | (s[i + 1] as u16)
}

proof fn lemma_be_u32_roundtrip(v: u32)
    ensures
        read_be_u32(be_u32_bytes(v), 0) == v,
{
    let b = be_u32_bytes(v);
    let b0 = (v >> 24u32) as u8;
    let b1 = ((v >> 16u32) & 0xffu32) as u8;
    let b2 = ((v >> 8u32) & 0xffu32) as u8;
    let b3 = (v & 0xffu32) as u8;
    assert(b[0] == b0 && b[1] == b1 && b[2] == b2 && b[3] == b3);
    assert(((b0 as u32) << 24u32) | ((b1 as u32) << 16u32) | ((b2 as u32) << 8u32) | (b3 as u32)
        == v) by (bit_vector)
        requires
            b0 == (v >> 24u32) as u8,
            b1 == ((v >> 16u32) & 0xffu32) as u8,
            b2 == ((v >> 8u32) & 0xffu32) as u8,
            b3 == (v & 0xffu32) as u8,
    ;
}

proof fn lemma_be_u16_roundtrip(v: u16)
    ensures
        read_be_u16(be_u16_bytes(v), 0) == v,
{
    let b = be_u16_bytes(v);
    let b0 = (v >> 8u16) as u8;
    let b1 = (v & 0xffu16) as u8;
    assert(b[0] == b0 && b[1] == b1);
    assert(((b0 as u16) << 8u16) | (b1 as u16) == v) by (bit_vector)
        requires
            b0 == (v >> 8u16) as u8,
            b1 == (v & 0xffu16) as u8,
    ;
}

fn push_be_u32(buf: &mut Vec<u8>, v: u32)
    ensures
        final(buf)@ == old(buf)@ + be_u32_bytes(v),
{
    buf.push((v >> 24u32) as u8);
    buf.push(((v >> 16u32) & 0xffu32) as u8);
    buf.push(((v >> 8u32) & 0xffu32) as u8);
    buf.push((v & 0xffu32) as u8);
    assert(buf@ == old(buf)@ + be_u32_bytes(v));
}

fn push_be_u16(buf: &mut Vec<u8>, v: u16)
    ensures
        final(buf)@ == old(buf)@ + be_u16_bytes(v),
{
    buf.push((v >> 8u16) as u8);
    buf.push((v & 0xffu16) as u8);
    assert(buf@ == old(buf)@ + be_u16_bytes(v));
}

fn get_be_u32(data: &[u8], i: usize) -> (res: u32)
    requires
        i + 4 <= data.len(),
    ensures
        res == read_be_u32(data@, i as int),
{
    ((data[i] as u32) << 24u32) | ((data[i + 1] as u32) << 16u32) | ((data[i + 2] as u32) << 8u32)
        | (data[i + 3] as u32)
}

fn get_be_u16(data: &[u8], i: usize) -> (res: u16)
    requires
        i + 2 <= data.len(),
    ensures
        res == read_be_u16(data@, i as int),
{
    ((data[i] as u16) << 8u16) | (data[i + 1] as u16)
}

/// `data[from..to]` as a new vector.
fn copy_range(data: &[u8], from: usize, to: usize) -> (res: Vec<u8>)
    requires
        from <= to <= data.len(),
    ensures
        res@ == data@.subrange(from as int, to as int),
{
    let mut out: Vec<u8> = Vec::with_capacity(to - from);
    let mut i: usize = from;
    while i < to
        invariant
            from <= i <= to,
            to <= data.len(),
            out@ == data@.subrange(from as int, i as int),
        decreases to - i,
    {
        out.push(data[i]);
        i = i + 1;
        assert(out@ == data@.subrange(from as int, i as int));
    }
    out
}

// ---------------------------------------------------------------------------
// Encoding
// ---------------------------------------------------------------------------

/// The packet-length field written for a body of `len` bytes: the header and
/// body length, truncated to 32 bits as the encoder writes it.
pub open spec fn packet_len_field(len: nat) -> u32 {
    (16 + len) as u32
}

/// The bytes of an encoded packet.
pub open spec fn encoded(p: PacketModel) -> Seq<u8> {
    be_u32_bytes(packet_len_field(p.body.len())) + be_u16_bytes(16u16) + be_u16_bytes(p.proto_ver)
        + be_u32_bytes(p.op_code) + be_u32_bytes(p.seq_id) + p.body
}

impl Packet {
    /// A packet of protocol version 1 and sequence id 1.
    pub fn new(op_code: OpCode, body: Vec<u8>) -> (res: Packet)
        ensures
            res.proto_ver == 1,
            res.op_code == op_code_value(op_code),
            res.seq_id == 1,
            res.body@ == body@,
    {
        Packet { proto_ver: 1, op_code: op_code.value(), seq_id: 1, body }
    }

    /// The packet's bytes: header, then body.
    pub fn encode(&self) -> (res: Vec<u8>)
        ensures
            res@ == encoded(self@),
    {
        let len: u64 = self.body.len() as u64;
        let total: u64 = len.wrapping_add(16u64);
        let packet_len: u32 = total as u32;
        assert(packet_len == packet_len_field(self.body@.len())) by {
            assert(total as u32 == (len + 16) as u32) by (bit_vector)
                requires
                    total == (if len + 16 > 0xffff_ffff_ffff_ffffu64 {
                        (len + 16 - 0x1_0000_0000_0000_0000) as u64
                    } else {
                        (len + 16) as u64
                    }),
            ;
        }
        let mut buf: Vec<u8> = Vec::new();
        push_be_u32(&mut buf, packet_len);
        push_be_u16(&mut buf, 16u16);
        push_be_u16(&mut buf, self.proto_ver);
        push_be_u32(&mut buf, self.op_code);
        push_be_u32(&mut buf, self.seq_id);
        let mut i: usize = 0;
        let ghost head = buf@;
        while i < self.body.len()
            invariant
                i <= self.body.len(),
                buf@ == head + self.body@.take(i as int),
            decreases self.body.len() - i,
        {
            buf.push(self.body[i]);
            i = i + 1;
            assert(self.body@.take(i as int) == self.body@.take(i - 1).push(self.body@[i - 1]));
        }
        assert(self.body@.take(self.body.len() as int) == self.body@);
        buf
    }
}

// ---------------------------------------------------------------------------
// Decompression (outside crates)
// ---------------------------------------------------------------------------

/// What `brotli::Decompressor` yields when its reader is drained into a
/// vector: `None` when reading fails.
pub uninterp spec fn brotli_decompressed(data: Seq<u8>) -> Option<Seq<u8>>;

/// What `flate2::read::ZlibDecoder` yields when drained into a vector:
/// `None` when reading fails.
pub uninterp spec fn zlib_decompressed(data: Seq<u8>) -> Option<Seq<u8>>;

/// Decompresses a brotli stream with `brotli::Decompressor` (4096-byte
/// buffer) and `Read::read_to_end`. The contract claims only that the outcome
/// is a function of the input bytes, named `brotli_decompressed`.
#[verifier::external_body]
fn decompress_brotli(data: &[u8]) -> (res: Option<Vec<u8>>)
    ensures
        match res {
            Some(out) => brotli_decompressed(data@) == Some(out@),
            None => brotli_decompressed(data@) is None,
        },
{
    let mut decoder = brotli::Decompressor::new(data, 4096);
    let mut output = Vec::new();
    match decoder.read_to_end(&mut output) {
        Ok(_) => Some(output),
        Err(_) => None,
    }
}

/// Decompresses a zlib stream with `flate2::read::ZlibDecoder` and
/// `Read::read_to_end`. The contract claims only that the outcome is a
/// function of the input bytes, named `zlib_decompressed`.
#[verifier::external_body]
fn decompress_zlib(data: &[u8]) -> (res: Option<Vec<u8>>)
    ensures
        match res {
            Some(out) => zlib_decompressed(data@) == Some(out@),
            None => zlib_decompressed(data@) is None,
        },
{
    let mut decoder = flate2::read::ZlibDecoder::new(std::io::Cursor::new(data));
    let mut output = Vec::new();
    match decoder.read_to_end(&mut output) {
        Ok(_) => Some(output),
        Err(_) => None,
    }
}

// ---------------------------------------------------------------------------
// Decoding
// ---------------------------------------------------------------------------

/// Why decoding did not produce packets.
#[derive(Debug, Clone, Copy, PartialEq, Eq, Structural)]
pub enum DecodeError {
    /// A brotli body (protocol version 3) could not be decompressed.
    Brotli,
    /// A zlib body (protocol version 2) could not be decompressed.
    Zlib,
}

/// Outcome of decoding in the model: packets, a decompression failure, or
/// `Stuck`, where the decoder never returns (a header length beyond the
/// packet length, a zero packet length that is never left behind, or
/// compressed bodies nested deeper than the allowed depth).
pub enum DecodeOutcome {
    Packets(Seq<PacketModel>),
    Failed(DecodeError),
    Stuck,
}

pub open spec fn settles(r: DecodeOutcome) -> bool {
    !(r is Stuck)
}

/// Decoding of `data` from `offset`, with compressed bodies nested at most
/// `depth - 1` levels deep below this one.
pub open spec fn decode_from(data: Seq<u8>, offset: int, depth: nat) -> DecodeOutcome
    decreases depth, data.len() - offset,
{
    if depth == 0 {
        DecodeOutcome::Stuck
    } else if offset < 0 || offset + 16 > data.len() {
        DecodeOutcome::Packets(seq![])
    } else {
        let packet_len = read_be_u32(data, offset) as int;
        let header_len = read_be_u16(data, offset + 4) as int;
        let proto_ver = read_be_u16(data, offset + 6);
        let op_code = read_be_u32(data, offset + 8);
        let seq_id = read_be_u32(data, offset + 12);
        if offset + packet_len > data.len() {
            DecodeOutcome::Packets(seq![])
        } else if header_len > packet_len {
            DecodeOutcome::Stuck
        } else {
            let body = data.subrange(offset + header_len, offset + packet_len);
            let here = if proto_ver == 3 {
                match brotli_decompressed(body) {
                    Some(inner) => decode_from(inner, 0, (depth - 1) as nat),
                    None => DecodeOutcome::Failed(DecodeError::Brotli),
                }
            } else if proto_ver == 2 {
                match zlib_decompressed(body) {
                    Some(inner) => decode_from(inner, 0, (depth - 1) as nat),
                    None => DecodeOutcome::Failed(DecodeError::Zlib),
                }
            } else {
                DecodeOutcome::Packets(
                    seq![PacketModel { proto_ver, op_code, seq_id, body }],
                )
            };
            match here {
                DecodeOutcome::Packets(first) => {
                    if packet_len == 0 {
                        DecodeOutcome::Stuck
                    } else {
                        match decode_from(data, offset + packet_len, depth) {
                            DecodeOutcome::Packets(rest) => DecodeOutcome::Packets(first + rest),
                            other => other,
                        }
                    }
                },
                other => other,
            }
        }
    }
}

/// `Packet::decode` returns on `data`: it settles at some nesting depth.
pub open spec fn decode_terminates(data: Seq<u8>) -> bool {
    exists|depth: nat| settles(#[trigger] decode_from(data, 0, depth))
}

/// What `Packet::decode` returns on `data` when it returns.
pub open spec fn decode_spec(data: Seq<u8>) -> DecodeOutcome {
    decode_from(data, 0, choose|depth: nat| settles(#[trigger] decode_from(data, 0, depth)))
}

/// More nesting depth does not change an outcome that has settled.
pub proof fn lemma_decode_depth_mono(data: Seq<u8>, offset: int, depth: nat)
    requires
        settles(decode_from(data, offset, depth)),
    ensures
        decode_from(data, offset, depth + 1) == decode_from(data, offset, depth),
    decreases depth, data.len() - offset,
{
    if depth > 0 && offset >= 0 && offset + 16 <= data.len() {
        let packet_len = read_be_u32(data, offset) as int;
        let header_len = read_be_u16(data, offset + 4) as int;
        let proto_ver = read_be_u16(data, offset + 6);
        if offset + packet_len <= data.len() && header_len <= packet_len {
            let body = data.subrange(offset + header_len, offset + packet_len);
            if proto_ver == 3 {
                if let Some(inner) = brotli_decompressed(body) {
                    lemma_decode_depth_mono(inner, 0, (depth - 1) as nat);
                }
            } else if proto_ver == 2 {
                if let Some(inner) = zlib_decompressed(body) {
                    lemma_decode_depth_mono(inner, 0, (depth - 1) as nat);
                }
            }
            if packet_len > 0 {
                let here = if proto_ver == 3 {
                    match brotli_decompressed(body) {
                        Some(inner) => decode_from(inner, 0, (depth - 1) as nat),
                        None => DecodeOutcome::Failed(DecodeError::Brotli),
                    }
                } else if proto_ver == 2 {
                    match zlib_decompressed(body) {
                        Some(inner) => decode_from(inner, 0, (depth - 1) as nat),
                        None => DecodeOutcome::Failed(DecodeError::Zlib),
                    }
                } else {
                    DecodeOutcome::Packets(seq![])
                };
                if here is Packets {
                    lemma_decode_depth_mono(data, offset + packet_len, depth);
                }
            }
        }
    }
}

/// Any two depths at which decoding settles give the same outcome.
pub proof fn lemma_decode_depth_agree(data: Seq<u8>, d1: nat, d2: nat)
    requires
        settles(decode_from(data, 0, d1)),
        d1 <= d2,
    ensures
        decode_from(data, 0, d2) == decode_from(data, 0, d1),
    decreases d2 - d1,
{
    if d1 < d2 {
        lemma_decode_depth_mono(data, 0, d1);
        lemma_decode_depth_agree(data, (d1 + 1) as nat, d2);
    }
}

/// Settling at `depth` fixes the outcome `decode_spec` speaks of.
pub proof fn lemma_decode_spec_at(data: Seq<u8>, depth: nat)
    requires
        settles(decode_from(data, 0, depth)),
    ensures
        decode_terminates(data),
        decode_spec(data) == decode_from(data, 0, depth),
{
    let c = choose|d: nat| settles(#[trigger] decode_from(data, 0, d));
    if c <= depth {
        lemma_decode_depth_agree(data, c, depth);
    } else {
        lemma_decode_depth_agree(data, depth, c);
    }
}

/// `pre` followed by the outcome `r` of decoding the rest.
pub open spec fn after(pre: Seq<PacketModel>, r: DecodeOutcome) -> DecodeOutcome {
    match r {
        DecodeOutcome::Packets(rest) => DecodeOutcome::Packets(pre + rest),
        other => other,
    }
}

proof fn lemma_packets_view_append(a: Seq<Packet>, b: Seq<Packet>)
    ensures
        packets_view(a + b) == packets_view(a) + packets_view(b),
{
    assert(packets_view(a + b) =~= packets_view(a) + packets_view(b));
}

proof fn lemma_packets_view_push(a: Seq<Packet>, p: Packet)
    ensures
        packets_view(a.push(p)) == packets_view(a).push(p@),
{
    assert(packets_view(a.push(p)) =~= packets_view(a).push(p@));
}

/// Decodes `data` with compressed bodies nested below `depth` levels.
fn decode_at_depth(data: &[u8], Ghost(depth): Ghost<nat>) -> (res: Result<Vec<Packet>, DecodeError>)
    requires
        settles(decode_from(data@, 0, depth)),
    ensures
        match res {
            Ok(ps) => decode_from(data@, 0, depth) == DecodeOutcome::Packets(packets_view(ps@)),
            Err(e) => decode_from(data@, 0, depth) == DecodeOutcome::Failed(e),
        },
    decreases depth,
{
    let mut packets: Vec<Packet> = Vec::new();
    let mut offset: usize = 0;
    assert(packets_view(packets@) =~= Seq::<PacketModel>::empty());
    assert(after(Seq::empty(), decode_from(data@, 0, depth)) == decode_from(data@, 0, depth)) by {
        if let DecodeOutcome::Packets(rest) = decode_from(data@, 0, depth) {
            assert(Seq::<PacketModel>::empty() + rest =~= rest);
        }
    }
    while offset <= data.len() && data.len() - offset >= 16
        invariant
            offset <= data.len(),
            depth > 0,
            settles(decode_from(data@, offset as int, depth)),
            decode_from(data@, 0, depth) == after(packets_view(packets@), decode_from(data@, offset as int, depth)),
        decreases data.len() - offset,
    {
        let packet_len_field = get_be_u32(data, offset);
        let header_len_field = get_be_u16(data, offset + 4);
        let proto_ver = get_be_u16(data, offset + 6);
        let op_code = get_be_u32(data, offset + 8);
        let seq_id = get_be_u32(data, offset + 12);
        let packet_len: usize = packet_len_field as usize;
        let header_len: usize = header_len_field as usize;
        if packet_len_field as u64 > (data.len() - offset) as u64 {
            assert(after(packets_view(packets@), DecodeOutcome::Packets(seq![])) == DecodeOutcome::Packets(packets_view(packets@))) by {
                assert(packets_view(packets@) + seq![] =~= packets_view(packets@));
            }
            return Ok(packets);
        }
        let ghost body_spec = data@.subrange(offset + header_len, offset + packet_len);
        let body = copy_range(data, offset + header_len, offset + packet_len);
        if proto_ver == 3 || proto_ver == 2 {
            let decompressed = if proto_ver == 3 {
                decompress_brotli(&body)
            } else {
                decompress_zlib(&body)
            };
            match decompressed {
                None => {
                    if proto_ver == 3 {
                        return Err(DecodeError::Brotli);
                    } else {
                        return Err(DecodeError::Zlib);
                    }
                },
                Some(inner) => {
                    match decode_at_depth(&inner, Ghost((depth - 1) as nat)) {
                        Err(e) => {
                            return Err(e);
                        },
                        Ok(mut nested) => {
                            let ghost before = packets@;
                            let ghost nested_v = nested@;
                            packets.append(&mut nested);
                            proof {
                                lemma_packets_view_append(before, nested_v);
                                let rest = decode_from(data@, offset + packet_len, depth);
                                if let DecodeOutcome::Packets(r) = rest {
                                    assert(packets_view(before) + (packets_view(nested_v) + r) =~= (packets_view(before) + packets_view(nested_v)) + r);
                                }
                            }
                        },
                    }
                },
            }
        } else {
            let ghost before = packets@;
            let packet = Packet { proto_ver, op_code, seq_id, body };
            packets.push(packet);
            proof {
                lemma_packets_view_push(before, packet);
                let rest = decode_from(data@, offset + packet_len, depth);
                if let DecodeOutcome::Packets(r) = rest {
                    assert(packets_view(before) + (seq![packet@] + r) =~= packets_view(before).push(packet@) + r);
                }
            }
        }
        offset = offset + packet_len;
    }
    proof {
        if !(offset <= data.len() && data.len() - offset >= 16) {
            assert(decode_from(data@, offset as int, depth) == DecodeOutcome::Packets(seq![]));
            assert(packets_view(packets@) + seq![] =~= packets_view(packets@));
        }
    }
    Ok(packets)
}

impl Packet {
    /// Decodes every packet in `data`, opening compressed bodies and
    /// decoding the packets nested in them in their place. Decoding stops at
    /// the first packet that is truncated.
    pub fn decode(data: &[u8]) -> (res: Result<Vec<Packet>, DecodeError>)
        requires
            decode_terminates(data@),
        ensures
            match res {
                Ok(ps) => decode_spec(data@) == DecodeOutcome::Packets(packets_view(ps@)),
                Err(e) => decode_spec(data@) == DecodeOutcome::Failed(e),
            },
    {
        let ghost depth = choose|d: nat| settles(#[trigger] decode_from(data@, 0, d));
        decode_at_depth(data, Ghost(depth))
    }

    /// Decodes `data` as `Packet::decode` does when decoding settles with
    /// compressed bodies nested below `max_depth` levels; `None` otherwise,
    /// where `Packet::decode` would not return or would nest deeper.
    pub fn try_decode(data: &[u8], max_depth: u64) -> (res: Option<Result<Vec<Packet>, DecodeError>>)
        ensures
            res is Some <==> settles(decode_from(data@, 0, max_depth as nat)),
            match res {
                Some(Ok(ps)) => decode_spec(data@) == DecodeOutcome::Packets(packets_view(ps@)),
                Some(Err(e)) => decode_spec(data@) == DecodeOutcome::Failed(e),
                None => true,
            },
    {
        if settles_within(data, max_depth) {
            proof {
                lemma_decode_spec_at(data@, max_depth as nat);
            }
            Some(Packet::decode(data))
        } else {
            None
        }
    }
}

/// How decoding ends, without the packets.
enum Ending {
    Packets,
    Failed,
    Stuck,
}

/// How decoding `data` ends within `depth` nesting levels.
fn ending_within(data: &[u8], depth: u64) -> (res: Ending)
    ensures
        (res is Packets) == (decode_from(data@, 0, depth as nat) is Packets),
        (res is Failed) == (decode_from(data@, 0, depth as nat) is Failed),
        (res is Stuck) == (decode_from(data@, 0, depth as nat) is Stuck),
    decreases depth,
{
    if depth == 0 {
        return Ending::Stuck;
    }
    let mut offset: usize = 0;
    while offset <= data.len() && data.len() - offset >= 16
        invariant
            offset <= data.len(),
            depth > 0,
            (decode_from(data@, 0, depth as nat) is Packets) == (decode_from(data@, offset as int, depth as nat) is Packets),
            (decode_from(data@, 0, depth as nat) is Failed) == (decode_from(data@, offset as int, depth as nat) is Failed),
            (decode_from(data@, 0, depth as nat) is Stuck) == (decode_from(data@, offset as int, depth as nat) is Stuck),
        decreases data.len() - offset,
    {
        let packet_len_field = get_be_u32(data, offset);
        let header_len_field = get_be_u16(data, offset + 4);
        let proto_ver = get_be_u16(data, offset + 6);
        let packet_len: usize = packet_len_field as usize;
        let header_len: usize = header_len_field as usize;
        if packet_len_field as u64 > (data.len() - offset) as u64 {
            return Ending::Packets;
        }
        if header_len > packet_len {
            return Ending::Stuck;
        }
        if proto_ver == 3 || proto_ver == 2 {
            let body = copy_range(data, offset + header_len, offset + packet_len);
            let decompressed = if proto_ver == 3 {
                decompress_brotli(&body)
            } else {
                decompress_zlib(&body)
            };
            match decompressed {
                None => {
                    return Ending::Failed;
                },
                Some(inner) => {
                    match ending_within(&inner, depth - 1) {
                        Ending::Packets => {},
                        Ending::Failed => {
                            return Ending::Failed;
                        },
                        Ending::Stuck => {
                            return Ending::Stuck;
                        },
                    }
                },
            }
        }
        if packet_len == 0 {
            return Ending::Stuck;
        }
        offset = offset + packet_len;
    }
    Ending::Packets
}

/// Whether decoding `data` settles within `depth` nesting levels.
fn settles_within(data: &[u8], depth: u64) -> (res: bool)
    ensures
        res == settles(decode_from(data@, 0, depth as nat)),
{
    match ending_within(data, depth) {
        Ending::Stuck => false,
        _ => true,
    }
}

// ---------------------------------------------------------------------------
// Laws of encoding and decoding
// ---------------------------------------------------------------------------

/// The bytes of the packets `ps`, one after the other.
pub open spec fn encoded_all(ps: Seq<PacketModel>) -> Seq<u8>
    decreases ps.len(),
{
    if ps.len() == 0 {
        seq![]
    } else {
        encoded(ps[0]) + encoded_all(ps.drop_first())
    }
}

/// A packet whose body the decoder keeps as it is, and whose length the
/// packet-length field holds without truncation.
pub open spec fn is_plain(p: PacketModel) -> bool {
    p.proto_ver != 2 && p.proto_ver != 3 && p.body.len() + 16 <= u32::MAX
}

/// Decoding after a prefix only looks at what follows the prefix.
proof fn lemma_decode_shift(a: Seq<u8>, b: Seq<u8>, k: int, depth: nat)
    requires
        0 <= k,
    ensures
        decode_from(a + b, a.len() + k, depth) == decode_from(b, k, depth),
    decreases b.len() - k,
{
    let ab = a + b;
    let o = a.len() + k;
    if depth > 0 && k + 16 <= b.len() {
        assert(read_be_u32(ab, o) == read_be_u32(b, k));
        assert(read_be_u16(ab, o + 4) == read_be_u16(b, k + 4));
        assert(read_be_u16(ab, o + 6) == read_be_u16(b, k + 6));
        assert(read_be_u32(ab, o + 8) == read_be_u32(b, k + 8));
        assert(read_be_u32(ab, o + 12) == read_be_u32(b, k + 12));
        let packet_len = read_be_u32(b, k) as int;
        let header_len = read_be_u16(b, k + 4) as int;
        if k + packet_len <= b.len() && header_len <= packet_len {
            assert(ab.subrange(o + header_len, o + packet_len) =~= b.subrange(k + header_len, k + packet_len));
            if packet_len > 0 {
                lemma_decode_shift(a, b, k + packet_len, depth);
            }
        }
    }
}

/// The fields of an encoded packet read back as written.
proof fn lemma_read_encoded(p: PacketModel, rest: Seq<u8>)
    requires
        is_plain(p),
    ensures
        ({
            let data = encoded(p) + rest;
            &&& data.len() == 16 + p.body.len() + rest.len()
            &&& read_be_u32(data, 0) == 16 + p.body.len()
            &&& read_be_u16(data, 4) == 16
            &&& read_be_u16(data, 6) == p.proto_ver
            &&& read_be_u32(data, 8) == p.op_code
            &&& read_be_u32(data, 12) == p.seq_id
            &&& data.subrange(16, 16 + p.body.len() as int) == p.body
        }),
{
    let data = encoded(p) + rest;
    let len_field = packet_len_field(p.body.len());
    assert(len_field == 16 + p.body.len() as int);
    lemma_be_u32_roundtrip(len_field);
    lemma_be_u16_roundtrip(16u16);
    lemma_be_u16_roundtrip(p.proto_ver);
    lemma_be_u32_roundtrip(p.op_code);
    lemma_be_u32_roundtrip(p.seq_id);
    let f0 = be_u32_bytes(len_field);
    let f1 = be_u16_bytes(16u16);
    let f2 = be_u16_bytes(p.proto_ver);
    let f3 = be_u32_bytes(p.op_code);
    let f4 = be_u32_bytes(p.seq_id);
    assert(data =~= f0 + f1 + f2 + f3 + f4 + p.body + rest);
    assert(data.subrange(0, 4) =~= f0);
    assert(data.subrange(4, 6) =~= f1);
    assert(data.subrange(6, 8) =~= f2);
    assert(data.subrange(8, 12) =~= f3);
    assert(data.subrange(12, 16) =~= f4);
    assert(read_be_u32(data, 0) == read_be_u32(f0, 0));
    assert(read_be_u16(data, 4) == read_be_u16(f1, 0));
    assert(read_be_u16(data, 6) == read_be_u16(f2, 0));
    assert(read_be_u32(data, 8) == read_be_u32(f3, 0));
    assert(read_be_u32(data, 12) == read_be_u32(f4, 0));
    assert(data.subrange(16, 16 + p.body.len() as int) =~= p.body);
}

proof fn lemma_decode_encoded_all(ps: Seq<PacketModel>)
    requires
        forall|i: int| 0 <= i < ps.len() ==> is_plain(#[trigger] ps[i]),
    ensures
        decode_from(encoded_all(ps), 0, 1) == DecodeOutcome::Packets(ps),
    decreases ps.len(),
{
    if ps.len() == 0 {
        assert(encoded_all(ps).len() == 0);
        assert(ps =~= seq![]);
    } else {
        let p = ps[0];
        assert(is_plain(p));
        let tail = ps.drop_first();
        assert forall|i: int| 0 <= i < tail.len() implies is_plain(#[trigger] tail[i]) by {
            assert(tail[i] == ps[i + 1]);
        }
        lemma_decode_encoded_all(tail);
        let rest = encoded_all(tail);
        let data = encoded(p) + rest;
        assert(data == encoded_all(ps));
        lemma_read_encoded(p, rest);
        let n: int = 16 + p.body.len() as int;
        assert(encoded(p).len() == n);
        lemma_decode_shift(encoded(p), rest, 0, 1);
        assert(decode_from(data, n, 1) == DecodeOutcome::Packets(tail));
        let model = PacketModel {
            proto_ver: read_be_u16(data, 6),
            op_code: read_be_u32(data, 8),
            seq_id: read_be_u32(data, 12),
            body: data.subrange(16, n),
        };
        assert(model == p);
        assert(seq![p] + tail =~= ps);
    }
}

/// Decoding the bytes of plain packets written one after another gives back
/// exactly those packets, in order.
pub proof fn lemma_decode_encoded(ps: Seq<PacketModel>)
    requires
        forall|i: int| 0 <= i < ps.len() ==> is_plain(#[trigger] ps[i]),
    ensures
        decode_terminates(encoded_all(ps)),
        decode_spec(encoded_all(ps)) == DecodeOutcome::Packets(ps),
{
    lemma_decode_encoded_all(ps);
    lemma_decode_spec_at(encoded_all(ps), 1);
}

/// Decoding the bytes of one plain packet gives back that packet.
pub proof fn lemma_decode_encode(p: PacketModel)
    requires
        is_plain(p),
    ensures
        decode_terminates(encoded(p)),
        decode_spec(encoded(p)) == DecodeOutcome::Packets(seq![p]),
{
    let ps = seq![p];
    assert(ps.drop_first() =~= Seq::<PacketModel>::empty());
    assert(encoded_all(ps) =~= encoded(p) + encoded_all(ps.drop_first()));
    assert(encoded_all(ps.drop_first()) =~= Seq::<u8>::empty());
    assert(encoded_all(ps) =~= encoded(p));
    lemma_decode_encoded(ps);
}

// ---------------------------------------------------------------------------
// Heartbeat
// ---------------------------------------------------------------------------

/// The body of a heartbeat packet: the bytes of `[object Object]`.
pub open spec fn heartbeat_body() -> Seq<u8> {
    seq![91u8, 111u8, 98u8, 106u8, 101u8, 99u8, 116u8, 32u8, 79u8, 98u8, 106u8, 101u8, 99u8,
        116u8, 93u8]
}

/// The bytes of a heartbeat packet.
pub fn make_heartbeat_packet() -> (res: Vec<u8>)
    ensures
        res@ == encoded(PacketModel { proto_ver: 1, op_code: 2, seq_id: 1, body: heartbeat_body() }),
{
    let body: Vec<u8> = vec![91u8, 111u8, 98u8, 106u8, 101u8, 99u8, 116u8, 32u8, 79u8, 98u8, 106u8,
        101u8, 99u8, 116u8, 93u8];
    assert(body@ == heartbeat_body());
    Packet::new(OpCode::Heartbeat, body).encode()
}

// ---------------------------------------------------------------------------
// Messages
// ---------------------------------------------------------------------------

/// Rank user info.
#[derive(Debug, Clone)]
pub struct RankUser {
    pub uid: i64,
    pub uname: String,
    pub rank: i32,
    pub face: String,
    pub score: String,
}

pub struct RankUserModel {
    pub uid: i64,
    pub uname: Seq<char>,
    pub rank: i32,
    pub face: Seq<char>,
    pub score: Seq<char>,
}

impl View for RankUser {
    type V = RankUserModel;

    open spec fn view(&self) -> RankUserModel {
        RankUserModel {
            uid: self.uid,
            uname: self.uname@,
            rank: self.rank,
            face: self.face@,
            score: self.score@,
        }
    }
}

/// Parsed live message.
#[derive(Debug, Clone)]
pub enum LiveMessage {
    /// Danmaku message.
    Danmaku { uid: i64, uname: String, content: String, color: u32 },
    /// User entered room.
    Enter { uid: i64, uname: String },
    /// Gift sent.
    Gift { uid: i64, uname: String, gift_name: String, gift_id: i64, num: i32, price: i64 },
    /// Popularity update (from heartbeat reply).
    Popularity(u32),
    /// Online rank data.
    OnlineRank { list: Vec<RankUser> },
    /// Auth reply.
    AuthReply { code: i32 },
    /// Unknown/unhandled message.
    Unknown(String),
}

pub enum LiveMessageModel {
    Danmaku { uid: i64, uname: Seq<char>, content: Seq<char>, color: u32 },
    Enter { uid: i64, uname: Seq<char> },
    Gift { uid: i64, uname: Seq<char>, gift_name: Seq<char>, gift_id: i64, num: i32, price: i64 },
    Popularity(u32),
    OnlineRank { list: Seq<RankUserModel> },
    AuthReply { code: i32 },
    Unknown(Seq<char>),
}

impl View for LiveMessage {
    type V = LiveMessageModel;

    open spec fn view(&self) -> LiveMessageModel {
        match self {
            LiveMessage::Danmaku { uid, uname, content, color } => LiveMessageModel::Danmaku {
                uid: *uid,
                uname: uname@,
                content: content@,
                color: *color,
            },
            LiveMessage::Enter { uid, uname } => LiveMessageModel::Enter { uid: *uid, uname: uname@ },
            LiveMessage::Gift { uid, uname, gift_name, gift_id, num, price } => LiveMessageModel::Gift {
                uid: *uid,
                uname: uname@,
                gift_name: gift_name@,
                gift_id: *gift_id,
                num: *num,
                price: *price,
            },
            LiveMessage::Popularity(p) => LiveMessageModel::Popularity(*p),
            LiveMessage::OnlineRank { list } => LiveMessageModel::OnlineRank {
                list: list@.map_values(|u: RankUser| u@),
            },
            LiveMessage::AuthReply { code } => LiveMessageModel::AuthReply { code: *code },
            LiveMessage::Unknown(cmd) => LiveMessageModel::Unknown(cmd@),
        }
    }
}

pub open spec fn opt_view(m: Option<LiveMessage>) -> Option<LiveMessageModel> {
    match m {
        Some(m) => Some(m@),
        None => None,
    }
}

/// `v.as_i64().unwrap_or(d)`.
pub open spec fn i64_or(v: JsonValue, d: i64) -> i64 {
    match json::as_i64(v) {
        Some(x) => x,
        None => d,
    }
}

/// `v.as_str().unwrap_or("")`.
pub open spec fn str_or_empty(v: JsonValue) -> Seq<char> {
    match json::as_str(v) {
        Some(s) => s,
        None => seq![],
    }
}

/// DANMU_MSG: `info[1]` is the text, `info[2]` the sender `[uid, uname, ..]`,
/// `info[0][3]` the colour.
pub open spec fn danmu_msg(info: JsonValue) -> Option<LiveMessageModel> {
    match (json::element(info, 1), json::element(info, 2), json::element(info, 0)) {
        (Some(text), Some(user), Some(meta)) => {
            match (json::as_str(text), user, json::element(user, 0), json::element(user, 1),
                json::element(meta, 3)) {
                (Some(content), JsonValue::Array(_), Some(uid), Some(uname), Some(color)) =>
                    Some(LiveMessageModel::Danmaku {
                        uid: i64_or(uid, 0),
                        uname: str_or_empty(uname),
                        content,
                        color: (match json::as_u64(color) {
                            Some(c) => c,
                            None => 0xFFFFFFu64,
                        }) as u32,
                    }),
                _ => None,
            }
        },
        _ => None,
    }
}

/// INTERACT_WORD: a user entering the room (`msg_type` 1).
pub open spec fn interact_word(data: JsonValue) -> Option<LiveMessageModel> {
    match (json::member(data, "uid"@), json::member(data, "uname"@), json::member(data, "msg_type"@)) {
        (Some(uid), Some(uname), Some(msg_type)) => {
            if i64_or(msg_type, 0) == 1 {
                Some(LiveMessageModel::Enter { uid: i64_or(uid, 0), uname: str_or_empty(uname) })
            } else {
                None
            }
        },
        _ => None,
    }
}

/// SEND_GIFT.
pub open spec fn send_gift(data: JsonValue) -> Option<LiveMessageModel> {
    match (json::member(data, "uid"@), json::member(data, "uname"@), json::member(data, "giftName"@),
        json::member(data, "giftId"@), json::member(data, "num"@), json::member(data, "price"@)) {
        (Some(uid), Some(uname), Some(gift_name), Some(gift_id), Some(num), Some(price)) =>
            Some(LiveMessageModel::Gift {
                uid: i64_or(uid, 0),
                uname: str_or_empty(uname),
                gift_name: str_or_empty(gift_name),
                gift_id: i64_or(gift_id, 0),
                num: i64_or(num, 1) as i32,
                price: i64_or(price, 0),
            }),
        _ => None,
    }
}

/// A required `i64` field as serde reads it.
pub open spec fn read_i64(f: Option<Option<JsonValue>>) -> Option<i64> {
    match f {
        Some(Some(v)) => json::as_i64(v),
        _ => None,
    }
}

/// A required `i32` field as serde reads it: an integer in `i32`'s range.
pub open spec fn read_i32(f: Option<Option<JsonValue>>) -> Option<i32> {
    match read_i64(f) {
        Some(x) => if i32::MIN <= x <= i32::MAX { Some(x as i32) } else { None },
        None => None,
    }
}

/// A required `String` field as serde reads it.
pub open spec fn read_string(f: Option<Option<JsonValue>>) -> Option<Seq<char>> {
    match f {
        Some(Some(v)) => json::as_str(v),
        _ => None,
    }
}

/// A `String` field with `#[serde(default)]`: empty when absent.
pub open spec fn read_string_or_default(f: Option<Option<JsonValue>>) -> Option<Seq<char>> {
    match f {
        Some(Some(v)) => json::as_str(v),
        Some(None) => Some(seq![]),
        None => None,
    }
}

/// `serde_json::from_value::<RankUser>`.
pub open spec fn rank_user(v: JsonValue) -> Option<RankUserModel> {
    match (read_i64(json::struct_field(v, 5, 0, "uid"@)),
        read_string(json::struct_field(v, 5, 1, "uname"@)),
        read_i32(json::struct_field(v, 5, 2, "rank"@)),
        read_string_or_default(json::struct_field(v, 5, 3, "face"@)),
        read_string_or_default(json::struct_field(v, 5, 4, "score"@))) {
        (Some(uid), Some(uname), Some(rank), Some(face), Some(score)) =>
            Some(RankUserModel { uid, uname, rank, face, score }),
        _ => None,
    }
}

/// The rank users of `items` that deserialize, in order.
pub open spec fn rank_users(items: Seq<JsonValue>) -> Seq<RankUserModel>
    decreases items.len(),
{
    if items.len() == 0 {
        seq![]
    } else {
        let rest = rank_users(items.drop_last());
        match rank_user(items.last()) {
            Some(u) => rest.push(u),
            None => rest,
        }
    }
}

/// ONLINE_RANK_V2.
pub open spec fn online_rank(data: JsonValue) -> Option<LiveMessageModel> {
    match json::member(data, "list"@) {
        Some(JsonValue::Array(items)) => Some(LiveMessageModel::OnlineRank { list: rank_users(items@) }),
        _ => None,
    }
}

fn i64_or_exec(v: &JsonValue, d: i64) -> (res: i64)
    ensures
        res == i64_or(*v, d),
{
    match v.as_i64() {
        Some(x) => x,
        None => d,
    }
}

fn string_or_empty(v: &JsonValue) -> (res: String)
    ensures
        res@ == str_or_empty(*v),
{
    match v.as_str() {
        Some(s) => text::to_owned_string(s),
        None => String::new(),
    }
}

/// Parses DANMU_MSG.
pub fn parse_danmu_msg(info: &JsonValue) -> (res: Option<LiveMessage>)
    ensures
        opt_view(res) == danmu_msg(*info),
{
    let text = info.element(1)?;
    let user = info.element(2)?;
    let meta = info.element(0)?;
    let content = text.as_str()?;
    if user.as_array().is_none() {
        return None;
    }
    let uid = user.element(0)?;
    let uname = user.element(1)?;
    let color = meta.element(3)?;
    let color_value: u64 = match color.as_u64() {
        Some(c) => c,
        None => 0xFFFFFFu64,
    };
    Some(LiveMessage::Danmaku {
        uid: i64_or_exec(uid, 0),
        uname: string_or_empty(uname),
        content: text::to_owned_string(content),
        color: color_value as u32,
    })
}

/// Parses INTERACT_WORD: a user entering the room.
pub fn parse_interact_word(data: &JsonValue) -> (res: Option<LiveMessage>)
    ensures
        opt_view(res) == interact_word(*data),
{
    let uid = data.get("uid")?;
    let uname = data.get("uname")?;
    let msg_type = data.get("msg_type")?;
    if i64_or_exec(msg_type, 0) == 1 {
        Some(LiveMessage::Enter { uid: i64_or_exec(uid, 0), uname: string_or_empty(uname) })
    } else {
        None
    }
}

/// Parses SEND_GIFT.
pub fn parse_send_gift(data: &JsonValue) -> (res: Option<LiveMessage>)
    ensures
        opt_view(res) == send_gift(*data),
{
    let uid = data.get("uid")?;
    let uname = data.get("uname")?;
    let gift_name = data.get("giftName")?;
    let gift_id = data.get("giftId")?;
    let num = data.get("num")?;
    let price = data.get("price")?;
    let num_value: i64 = i64_or_exec(num, 1);
    Some(LiveMessage::Gift {
        uid: i64_or_exec(uid, 0),
        uname: string_or_empty(uname),
        gift_name: string_or_empty(gift_name),
        gift_id: i64_or_exec(gift_id, 0),
        num: num_value as i32,
        price: i64_or_exec(price, 0),
    })
}

fn read_i64_exec(f: Option<Option<&JsonValue>>) -> (res: Option<i64>)
    ensures
        res == read_i64(match f {
            Some(Some(v)) => Some(Some(*v)),
            Some(None) => Some(None::<JsonValue>),
            None => None,
        }),
{
    match f {
        Some(Some(v)) => v.as_i64(),
        _ => None,
    }
}

fn read_string_exec(f: Option<Option<&JsonValue>>, default_empty: bool) -> (res: Option<String>)
    ensures
        ({
            let g = match f {
                Some(Some(v)) => Some(Some(*v)),
                Some(None) => Some(None::<JsonValue>),
                None => None,
            };
            let want = if default_empty { read_string_or_default(g) } else { read_string(g) };
            match res {
                Some(s) => want == Some(s@),
                None => want is None,
            }
        }),
{
    match f {
        Some(Some(v)) => match v.as_str() {
            Some(s) => Some(text::to_owned_string(s)),
            None => None,
        },
        Some(None) => if default_empty { Some(String::new()) } else { None },
        None => None,
    }
}

/// `serde_json::from_value::<RankUser>`.
pub fn rank_user_from_json(v: &JsonValue) -> (res: Option<RankUser>)
    ensures
        match res {
            Some(u) => rank_user(*v) == Some(u@),
            None => rank_user(*v) is None,
        },
{
    let uid = read_i64_exec(v.struct_field(5, 0, "uid"))?;
    let uname = read_string_exec(v.struct_field(5, 1, "uname"), false)?;
    let rank64 = read_i64_exec(v.struct_field(5, 2, "rank"))?;
    if rank64 < i32::MIN as i64 || rank64 > i32::MAX as i64 {
        return None;
    }
    let face = read_string_exec(v.struct_field(5, 3, "face"), true)?;
    let score = read_string_exec(v.struct_field(5, 4, "score"), true)?;
    Some(RankUser { uid, uname, rank: rank64 as i32, face, score })
}

/// Parses ONLINE_RANK_V2: the rank users that deserialize, in order.
pub fn parse_online_rank(data: &JsonValue) -> (res: Option<LiveMessage>)
    ensures
        opt_view(res) == online_rank(*data),
{
    let list = data.get("list")?;
    let items = list.as_array()?;
    let mut users: Vec<RankUser> = Vec::new();
    let mut i: usize = 0;
    while i < items.len()
        invariant
            i <= items.len(),
            users@.map_values(|u: RankUser| u@) == rank_users(items@.take(i as int)),
        decreases items.len() - i,
    {
        let ghost before = users@;
        assert(items@.take(i + 1).drop_last() =~= items@.take(i as int));
        match rank_user_from_json(&items[i]) {
            Some(u) => {
                users.push(u);
                assert(users@.map_values(|u: RankUser| u@) =~= before.map_values(|u: RankUser| u@).push(u@));
            },
            None => {},
        }
        i = i + 1;
    }
    assert(items@.take(items.len() as int) =~= items@);
    Some(LiveMessage::OnlineRank { list: users })
}

/// A message as the server sends it: its command and the optional `info`
/// and `data` members (`serde_json::from_value` into
/// `{ cmd: String, info: Option<Value>, data: Option<Value> }`).
pub open spec fn raw_message(v: JsonValue) -> Option<(Seq<char>, Option<JsonValue>, Option<JsonValue>)> {
    match (read_string(json::struct_field(v, 3, 0, "cmd"@)), json::struct_field(v, 3, 1, "info"@),
        json::struct_field(v, 3, 2, "data"@)) {
        (Some(cmd), Some(info), Some(data)) => Some((cmd, json::optional_value(info), json::optional_value(data))),
        _ => None,
    }
}

pub open spec fn with_member(m: Option<JsonValue>, f: spec_fn(JsonValue) -> Option<LiveMessageModel>) -> Option<LiveMessageModel> {
    match m {
        Some(v) => f(v),
        None => None,
    }
}

/// A JSON message dispatched on its command.
pub open spec fn json_message(v: JsonValue) -> Option<LiveMessageModel> {
    match raw_message(v) {
        None => None,
        Some((cmd, info, data)) => {
            if cmd == "DANMU_MSG"@ {
                with_member(info, |i: JsonValue| danmu_msg(i))
            } else if cmd == "INTERACT_WORD"@ {
                with_member(data, |d: JsonValue| interact_word(d))
            } else if cmd == "SEND_GIFT"@ {
                with_member(data, |d: JsonValue| send_gift(d))
            } else if cmd == "ONLINE_RANK_V2"@ {
                with_member(data, |d: JsonValue| online_rank(d))
            } else if text::seq_starts_with(cmd, "DANMU_MSG"@) {
                with_member(info, |i: JsonValue| danmu_msg(i))
            } else {
                Some(LiveMessageModel::Unknown(cmd))
            }
        },
    }
}

/// The message a packet carries. `body_json` is the JSON document the body
/// holds, when it holds one.
pub open spec fn packet_message(p: PacketModel, body_json: Option<JsonValue>) -> Option<LiveMessageModel> {
    if p.op_code == 3 {
        if p.body.len() >= 4 {
            Some(LiveMessageModel::Popularity(read_be_u32(p.body, 0)))
        } else {
            None
        }
    } else if p.op_code == 8 {
        match body_json {
            Some(v) => Some(LiveMessageModel::AuthReply {
                code: (match json::member(v, "code"@) {
                    Some(c) => i64_or(c, -1i64),
                    None => -1i64,
                }) as i32,
            }),
            None => None,
        }
    } else if p.op_code == 5 {
        match body_json {
            Some(v) => json_message(v),
            None => None,
        }
    } else {
        None
    }
}

/// The command and members of a message, as `serde_json::from_value` reads
/// them.
fn read_raw_message(v: &JsonValue) -> (res: Option<(String, Option<&JsonValue>, Option<&JsonValue>)>)
    ensures
        match res {
            Some((cmd, info, data)) => raw_message(*v) == Some((cmd@,
                match info { Some(i) => Some(*i), None => None::<JsonValue> },
                match data { Some(d) => Some(*d), None => None::<JsonValue> })),
            None => raw_message(*v) is None,
        },
{
    let cmd = read_string_exec(v.struct_field(3, 0, "cmd"), false)?;
    let info_field = v.struct_field(3, 1, "info")?;
    let data_field = v.struct_field(3, 2, "data")?;
    let info = match info_field {
        Some(JsonValue::Null) => None,
        other => other,
    };
    let data = match data_field {
        Some(JsonValue::Null) => None,
        other => other,
    };
    Some((cmd, info, data))
}

/// Parses a JSON message, dispatching on its command.
pub fn parse_json_message(v: &JsonValue) -> (res: Option<LiveMessage>)
    ensures
        opt_view(res) == json_message(*v),
{
    let (cmd, info, data) = read_raw_message(v)?;
    let cmd_chars = text::chars_of(cmd.as_str());
    let prefix = text::chars_of("DANMU_MSG");
    if text::str_eq(cmd.as_str(), "DANMU_MSG") {
        parse_danmu_msg(info?)
    } else if text::str_eq(cmd.as_str(), "INTERACT_WORD") {
        parse_interact_word(data?)
    } else if text::str_eq(cmd.as_str(), "SEND_GIFT") {
        parse_send_gift(data?)
    } else if text::str_eq(cmd.as_str(), "ONLINE_RANK_V2") {
        parse_online_rank(data?)
    } else if text::starts_with(&cmd_chars, &prefix) {
        parse_danmu_msg(info?)
    } else {
        Some(LiveMessage::Unknown(cmd))
    }
}

/// Parses the message a packet carries: the popularity count of a heartbeat
/// reply, the code of an auth reply, or a JSON message. `body_json` is the
/// JSON document the body holds (`None` when it holds none): for an auth
/// reply the body bytes read by `serde_json::from_slice`, for a message the
/// body read as lossy UTF-8 by `serde_json::from_str`.
pub fn parse_message_with(packet: &Packet, body_json: Option<&JsonValue>) -> (res: Option<LiveMessage>)
    ensures
        opt_view(res) == packet_message(packet@, match body_json {
            Some(v) => Some(*v),
            None => None::<JsonValue>,
        }),
{
    let op = match OpCode::try_from(packet.op_code) {
        Ok(op) => op,
        Err(_) => {
            return None;
        },
    };
    match op {
        OpCode::HeartbeatReply => {
            if packet.body.len() >= 4 {
                Some(LiveMessage::Popularity(get_be_u32(&packet.body, 0)))
            } else {
                None
            }
        },
        OpCode::AuthReply => {
            let json = body_json?;
            let code: i64 = match json.get("code") {
                Some(c) => i64_or_exec(c, -1),
                None => -1,
            };
            Some(LiveMessage::AuthReply { code: code as i32 })
        },
        OpCode::Message => parse_json_message(body_json?),
        _ => None,
    }
}

/// The JSON that a packet's body is read as: an authentication reply's
/// body as JSON bytes, an operation message's body as JSON text (its bytes
/// read with `String::from_utf8_lossy`), and nothing for other operations.
pub open spec fn body_json(p: PacketModel) -> Option<JsonValue> {
    if p.op_code == 8 {
        json::json_of_bytes(p.body)
    } else if p.op_code == 5 {
        json::json_of_text(text::utf8_lossy(p.body))
    } else {
        None
    }
}

proof fn lemma_scalar_same(x: Option<JsonValue>, y: Option<JsonValue>)
    requires
        json::same_opt_json(x, y),
    ensures
        x is Some <==> y is Some,
        x is Some ==> json::as_i64(x.unwrap()) == json::as_i64(y.unwrap())
            && json::as_u64(x.unwrap()) == json::as_u64(y.unwrap())
            && json::as_str(x.unwrap()) == json::as_str(y.unwrap())
            && (x.unwrap() is Array <==> y.unwrap() is Array)
            && (x.unwrap() is Null <==> y.unwrap() is Null)
            && json::same_json(x.unwrap(), y.unwrap()),
{
    if let (Some(a), Some(b)) = (x, y) {
        json::lemma_same_json_reads(a, b);
    }
}

proof fn lemma_member_scalar(x: JsonValue, y: JsonValue, key: Seq<char>)
    requires
        json::same_json(x, y),
    ensures
        json::same_opt_json(json::member(x, key), json::member(y, key)),
        json::member(x, key) is Some <==> json::member(y, key) is Some,
        json::member(x, key) is Some ==> json::as_i64(json::member(x, key).unwrap()) == json::as_i64(json::member(y, key).unwrap())
            && json::as_str(json::member(x, key).unwrap()) == json::as_str(json::member(y, key).unwrap())
            && json::same_json(json::member(x, key).unwrap(), json::member(y, key).unwrap()),
{
    json::lemma_same_json_reads(x, y);
    assert(json::same_opt_json(json::member(x, key), json::member(y, key)));
    lemma_scalar_same(json::member(x, key), json::member(y, key));
}

proof fn lemma_element_scalar(x: JsonValue, y: JsonValue, i: int)
    requires
        json::same_json(x, y),
    ensures
        json::same_opt_json(json::element(x, i), json::element(y, i)),
        json::element(x, i) is Some <==> json::element(y, i) is Some,
        json::element(x, i) is Some ==> json::as_i64(json::element(x, i).unwrap()) == json::as_i64(json::element(y, i).unwrap())
            && json::as_u64(json::element(x, i).unwrap()) == json::as_u64(json::element(y, i).unwrap())
            && json::as_str(json::element(x, i).unwrap()) == json::as_str(json::element(y, i).unwrap())
            && (json::element(x, i).unwrap() is Array <==> json::element(y, i).unwrap() is Array)
            && json::same_json(json::element(x, i).unwrap(), json::element(y, i).unwrap()),
{
    json::lemma_same_json_reads(x, y);
    assert(json::same_opt_json(json::element(x, i), json::element(y, i)));
    lemma_scalar_same(json::element(x, i), json::element(y, i));
}

proof fn lemma_danmu_same(x: JsonValue, y: JsonValue)
    requires
        json::same_json(x, y),
    ensures
        danmu_msg(x) == danmu_msg(y),
{
    lemma_element_scalar(x, y, 0);
    lemma_element_scalar(x, y, 1);
    lemma_element_scalar(x, y, 2);
    if let (Some(user), Some(meta)) = (json::element(x, 2), json::element(x, 0)) {
        let (user2, meta2) = (json::element(y, 2).unwrap(), json::element(y, 0).unwrap());
        lemma_element_scalar(user, user2, 0);
        lemma_element_scalar(user, user2, 1);
        lemma_element_scalar(meta, meta2, 3);
    }
}

proof fn lemma_interact_same(x: JsonValue, y: JsonValue)
    requires
        json::same_json(x, y),
    ensures
        interact_word(x) == interact_word(y),
{
    lemma_member_scalar(x, y, "uid"@);
    lemma_member_scalar(x, y, "uname"@);
    lemma_member_scalar(x, y, "msg_type"@);
}

proof fn lemma_gift_same(x: JsonValue, y: JsonValue)
    requires
        json::same_json(x, y),
    ensures
        send_gift(x) == send_gift(y),
{
    lemma_member_scalar(x, y, "uid"@);
    lemma_member_scalar(x, y, "uname"@);
    lemma_member_scalar(x, y, "giftName"@);
    lemma_member_scalar(x, y, "giftId"@);
    lemma_member_scalar(x, y, "num"@);
    lemma_member_scalar(x, y, "price"@);
}

proof fn lemma_field_scalar(x: JsonValue, y: JsonValue, n: int, i: int, name: Seq<char>)
    requires
        json::same_json(x, y),
    ensures
        read_i64(json::struct_field(x, n, i, name)) == read_i64(json::struct_field(y, n, i, name)),
        read_string(json::struct_field(x, n, i, name)) == read_string(json::struct_field(y, n, i, name)),
        read_string_or_default(json::struct_field(x, n, i, name)) == read_string_or_default(json::struct_field(y, n, i, name)),
        json::struct_field(x, n, i, name) is Some <==> json::struct_field(y, n, i, name) is Some,
        json::struct_field(x, n, i, name) is Some ==> json::same_opt_json(
            json::optional_value(json::struct_field(x, n, i, name).unwrap()),
            json::optional_value(json::struct_field(y, n, i, name).unwrap())),
{
    json::lemma_same_struct_field(x, y, n, i, name);
    if let Some(f) = json::struct_field(x, n, i, name) {
        lemma_scalar_same(f, json::struct_field(y, n, i, name).unwrap());
    }
}

proof fn lemma_rank_user_same(x: JsonValue, y: JsonValue)
    requires
        json::same_json(x, y),
    ensures
        rank_user(x) == rank_user(y),
{
    lemma_field_scalar(x, y, 5, 0, "uid"@);
    lemma_field_scalar(x, y, 5, 1, "uname"@);
    lemma_field_scalar(x, y, 5, 2, "rank"@);
    lemma_field_scalar(x, y, 5, 3, "face"@);
    lemma_field_scalar(x, y, 5, 4, "score"@);
}

proof fn lemma_rank_users_same(xs: Seq<JsonValue>, ys: Seq<JsonValue>)
    requires
        xs.len() == ys.len(),
        forall|i: int| 0 <= i < xs.len() ==> json::same_json(#[trigger] xs[i], ys[i]),
    ensures
        rank_users(xs) == rank_users(ys),
    decreases xs.len(),
{
    if xs.len() > 0 {
        let (xr, yr) = (xs.drop_last(), ys.drop_last());
        assert forall|i: int| 0 <= i < xr.len() implies json::same_json(#[trigger] xr[i], yr[i]) by {
            assert(xr[i] == xs[i]);
            assert(yr[i] == ys[i]);
        }
        lemma_rank_users_same(xr, yr);
        lemma_rank_user_same(xs.last(), ys.last());
    }
}

proof fn lemma_online_rank_same(x: JsonValue, y: JsonValue)
    requires
        json::same_json(x, y),
    ensures
        online_rank(x) == online_rank(y),
{
    lemma_member_scalar(x, y, "list"@);
    if let Some(JsonValue::Array(items)) = json::member(x, "list"@) {
        let items2 = json::member(y, "list"@).unwrap()->Array_0;
        lemma_rank_users_same(items@, items2@);
    }
}

proof fn lemma_with_member_same(a: Option<JsonValue>, b: Option<JsonValue>, k: int)
    requires
        json::same_opt_json(a, b),
    ensures
        k == 0 ==> with_member(a, |i: JsonValue| danmu_msg(i)) == with_member(b, |i: JsonValue| danmu_msg(i)),
        k == 1 ==> with_member(a, |d: JsonValue| interact_word(d)) == with_member(b, |d: JsonValue| interact_word(d)),
        k == 2 ==> with_member(a, |d: JsonValue| send_gift(d)) == with_member(b, |d: JsonValue| send_gift(d)),
        k == 3 ==> with_member(a, |d: JsonValue| online_rank(d)) == with_member(b, |d: JsonValue| online_rank(d)),
{
    if let (Some(x), Some(y)) = (a, b) {
        if k == 0 { lemma_danmu_same(x, y); }
        if k == 1 { lemma_interact_same(x, y); }
        if k == 2 { lemma_gift_same(x, y); }
        if k == 3 { lemma_online_rank_same(x, y); }
    }
}

proof fn lemma_json_message_same(x: JsonValue, y: JsonValue)
    requires
        json::same_json(x, y),
    ensures
        json_message(x) == json_message(y),
{
    lemma_field_scalar(x, y, 3, 0, "cmd"@);
    lemma_field_scalar(x, y, 3, 1, "info"@);
    lemma_field_scalar(x, y, 3, 2, "data"@);
    if let (Some((c1, i1, d1)), Some((c2, i2, d2))) = (raw_message(x), raw_message(y)) {
        lemma_with_member_same(i1, i2, 0);
        lemma_with_member_same(d1, d2, 1);
        lemma_with_member_same(d1, d2, 2);
        lemma_with_member_same(d1, d2, 3);
    }
}

/// A gift message: an operation packet whose body is a JSON object with
/// `cmd` "SEND_GIFT" and an object `data` holding `uid`, `uname`,
/// `giftName`, `giftId`, `num` and `price` carries the gift with the giver's
/// id and name, the gift's name and id, the count and the price read from
/// those members (a name that is no string reads as empty, a number that is
/// no integer as 0, a count that is none as 1); lacking one of them it
/// carries nothing.
pub proof fn lemma_gift_message(p: PacketModel, v: JsonValue, data: JsonValue)
    requires
        p.op_code == 5,
        v is Object,
        json::member(v, "cmd"@) matches Some(c) && json::as_str(c) == Some("SEND_GIFT"@),
        json::member(v, "data"@) == Some(data),
        data is Object,
    ensures
        ({
            let field = |k: Seq<char>| json::member(data, k);
            let text = |k: Seq<char>| match json::member(data, k) {
                Some(x) => match json::as_str(x) { Some(s) => s, None => seq![] },
                None => seq![],
            };
            let number = |k: Seq<char>, dflt: i64| match json::member(data, k) {
                Some(x) => match json::as_i64(x) { Some(n) => n, None => dflt },
                None => dflt,
            };
            if field("uid"@) is Some && field("uname"@) is Some && field("giftName"@) is Some
                && field("giftId"@) is Some && field("num"@) is Some && field("price"@) is Some {
                packet_message(p, Some(v)) == Some(LiveMessageModel::Gift {
                    uid: number("uid"@, 0),
                    uname: text("uname"@),
                    gift_name: text("giftName"@),
                    gift_id: number("giftId"@, 0),
                    num: number("num"@, 1) as i32,
                    price: number("price"@, 0),
                })
            } else {
                packet_message(p, Some(v)) is None
            }
        }),
{
    let info = json::member(v, "info"@);
    assert(json::struct_field(v, 3, 0, "cmd"@) == Some(json::member(v, "cmd"@)));
    assert(json::struct_field(v, 3, 2, "data"@) == Some(Some(data)));
    assert(json::optional_value(Some(data)) == Some(data));
    assert(raw_message(v) == Some(("SEND_GIFT"@, json::optional_value(info), Some(data))));
    reveal_strlit("SEND_GIFT");
    reveal_strlit("DANMU_MSG");
    reveal_strlit("INTERACT_WORD");
    assert("SEND_GIFT"@ != "DANMU_MSG"@) by { assert("SEND_GIFT"@[0] != "DANMU_MSG"@[0]); }
    assert("SEND_GIFT"@ != "INTERACT_WORD"@) by { assert("SEND_GIFT"@[0] != "INTERACT_WORD"@[0]); }
    assert(json_message(v) == send_gift(data));
}

/// A danmaku message: an operation packet whose body is a JSON object with
/// `cmd` "DANMU_MSG" and an array `info` whose element 1 is the text,
/// element 2 an array `[uid, uname, ..]` and element 0 an array whose
/// element 3 is the colour carries the danmaku with that sender, text and
/// colour (an id that is no integer reads as 0, a name that is no string as
/// empty, a colour that is no unsigned integer as white).
pub proof fn lemma_danmaku_message(p: PacketModel, v: JsonValue, info: JsonValue, content: Seq<char>,
    user: JsonValue, meta: JsonValue)
    requires
        p.op_code == 5,
        v is Object,
        json::member(v, "cmd"@) matches Some(c) && json::as_str(c) == Some("DANMU_MSG"@),
        json::member(v, "info"@) == Some(info),
        info is Array,
        json::element(info, 1) matches Some(t) && json::as_str(t) == Some(content),
        json::element(info, 2) == Some(user),
        user is Array,
        json::element(user, 0) is Some,
        json::element(user, 1) is Some,
        json::element(info, 0) == Some(meta),
        json::element(meta, 3) is Some,
    ensures
        packet_message(p, Some(v)) == Some(LiveMessageModel::Danmaku {
            uid: match json::as_i64(json::element(user, 0).unwrap()) { Some(n) => n, None => 0 },
            uname: match json::as_str(json::element(user, 1).unwrap()) { Some(s) => s, None => seq![] },
            content,
            color: (match json::as_u64(json::element(meta, 3).unwrap()) { Some(c) => c, None => 0xFFFFFFu64 }) as u32,
        }),
{
    assert(json::struct_field(v, 3, 0, "cmd"@) == Some(json::member(v, "cmd"@)));
    assert(json::struct_field(v, 3, 1, "info"@) == Some(Some(info)));
    assert(json::optional_value(Some(info)) == Some(info));
    assert(raw_message(v) == Some(("DANMU_MSG"@, Some(info), json::optional_value(json::member(v, "data"@)))));
    assert(json_message(v) == danmu_msg(info));
}

/// An entry message: an operation packet whose body is a JSON object with
/// `cmd` "INTERACT_WORD" and an object `data` holding `uid`, `uname` and
/// `msg_type` carries the entry of that user when `msg_type` is the integer
/// 1, and nothing otherwise.
pub proof fn lemma_enter_message(p: PacketModel, v: JsonValue, data: JsonValue)
    requires
        p.op_code == 5,
        v is Object,
        json::member(v, "cmd"@) matches Some(c) && json::as_str(c) == Some("INTERACT_WORD"@),
        json::member(v, "data"@) == Some(data),
        data is Object,
        json::member(data, "uid"@) is Some,
        json::member(data, "uname"@) is Some,
        json::member(data, "msg_type"@) is Some,
    ensures
        packet_message(p, Some(v)) == if json::as_i64(json::member(data, "msg_type"@).unwrap()) == Some(1i64) {
            Some(LiveMessageModel::Enter {
                uid: match json::as_i64(json::member(data, "uid"@).unwrap()) { Some(n) => n, None => 0 },
                uname: match json::as_str(json::member(data, "uname"@).unwrap()) { Some(s) => s, None => seq![] },
            })
        } else {
            None
        },
{
    let info = json::member(v, "info"@);
    assert(json::struct_field(v, 3, 0, "cmd"@) == Some(json::member(v, "cmd"@)));
    assert(json::struct_field(v, 3, 2, "data"@) == Some(Some(data)));
    assert(json::optional_value(Some(data)) == Some(data));
    assert(raw_message(v) == Some(("INTERACT_WORD"@, json::optional_value(info), Some(data))));
    reveal_strlit("DANMU_MSG");
    reveal_strlit("INTERACT_WORD");
    assert("INTERACT_WORD"@ != "DANMU_MSG"@) by { assert("INTERACT_WORD"@[0] != "DANMU_MSG"@[0]); }
    assert(json_message(v) == interact_word(data));
}

/// An authentication reply carries the integer `code` of its body, or -1
/// where the body has none; a body that is no JSON carries nothing.
pub proof fn lemma_auth_reply_message(p: PacketModel, body: Option<JsonValue>)
    requires
        p.op_code == 8,
    ensures
        packet_message(p, body) == match body {
            Some(v) => Some(LiveMessageModel::AuthReply {
                code: (match json::member(v, "code"@) {
                    Some(c) => match json::as_i64(c) { Some(n) => n, None => -1i64 },
                    None => -1i64,
                }) as i32,
            }),
            None => None,
        },
{
}

/// A rank entry that is a JSON object with an integer `uid`, a string
/// `uname`, an integer `rank` in `i32`'s range, and `face` and `score` that
/// are strings or absent reads as the user with those values, an absent
/// `face` or `score` as empty.
pub proof fn lemma_rank_user_object(x: JsonValue, uid: i64, uname: Seq<char>, rank: i64)
    requires
        x is Object,
        json::member(x, "uid"@) matches Some(u) && json::as_i64(u) == Some(uid),
        json::member(x, "uname"@) matches Some(n) && json::as_str(n) == Some(uname),
        json::member(x, "rank"@) matches Some(r) && json::as_i64(r) == Some(rank),
        i32::MIN <= rank <= i32::MAX,
        json::member(x, "face"@) matches Some(f) ==> json::as_str(f) is Some,
        json::member(x, "score"@) matches Some(f) ==> json::as_str(f) is Some,
    ensures
        rank_user(x) == Some(RankUserModel {
            uid,
            uname,
            rank: rank as i32,
            face: match json::member(x, "face"@) { Some(f) => json::as_str(f).unwrap(), None => seq![] },
            score: match json::member(x, "score"@) { Some(f) => json::as_str(f).unwrap(), None => seq![] },
        }),
{
}

/// The rank list keeps, in order, every entry that reads as a user: where
/// all do, entry `i` of the list is the user that entry `i` reads as.
pub proof fn lemma_rank_users_in_order(items: Seq<JsonValue>)
    ensures
        rank_users(items).len() <= items.len(),
        (forall|i: int| 0 <= i < items.len() ==> (#[trigger] rank_user(items[i])) is Some) ==> {
            &&& rank_users(items).len() == items.len()
            &&& forall|i: int| 0 <= i < items.len() ==> #[trigger] rank_users(items)[i] == rank_user(items[i]).unwrap()
        },
    decreases items.len(),
{
    if items.len() > 0 {
        let rest = items.drop_last();
        lemma_rank_users_in_order(rest);
        if forall|i: int| 0 <= i < items.len() ==> (#[trigger] rank_user(items[i])) is Some {
            assert forall|i: int| 0 <= i < rest.len() implies (#[trigger] rank_user(rest[i])) is Some by {
                assert(rest[i] == items[i]);
                assert(rank_user(items[i]) is Some);
            }
            assert(rank_user(items[items.len() - 1]) is Some);
            assert forall|i: int| 0 <= i < items.len() implies #[trigger] rank_users(items)[i] == rank_user(items[i]).unwrap() by {
                if i < items.len() - 1 {
                    assert(rest[i] == items[i]);
                    assert(rank_users(rest)[i] == rank_user(rest[i]).unwrap());
                }
            }
        }
    }
}

/// A rank message: an operation packet whose body is a JSON object with
/// `cmd` "ONLINE_RANK_V2" and an object `data` whose `list` is an array
/// carries the users of that list.
pub proof fn lemma_online_rank_message(p: PacketModel, v: JsonValue, data: JsonValue, list: Vec<JsonValue>)
    requires
        p.op_code == 5,
        v is Object,
        json::member(v, "cmd"@) matches Some(c) && json::as_str(c) == Some("ONLINE_RANK_V2"@),
        json::member(v, "data"@) == Some(data),
        data is Object,
        json::member(data, "list"@) == Some(JsonValue::Array(list)),
    ensures
        packet_message(p, Some(v)) == Some(LiveMessageModel::OnlineRank { list: rank_users(list@) }),
{
    let info = json::member(v, "info"@);
    assert(json::struct_field(v, 3, 0, "cmd"@) == Some(json::member(v, "cmd"@)));
    assert(json::struct_field(v, 3, 2, "data"@) == Some(Some(data)));
    assert(json::optional_value(Some(data)) == Some(data));
    assert(raw_message(v) == Some(("ONLINE_RANK_V2"@, json::optional_value(info), Some(data))));
    reveal_strlit("DANMU_MSG");
    reveal_strlit("INTERACT_WORD");
    reveal_strlit("SEND_GIFT");
    reveal_strlit("ONLINE_RANK_V2");
    assert("ONLINE_RANK_V2"@ != "DANMU_MSG"@) by { assert("ONLINE_RANK_V2"@[0] != "DANMU_MSG"@[0]); }
    assert("ONLINE_RANK_V2"@ != "INTERACT_WORD"@) by { assert("ONLINE_RANK_V2"@[0] != "INTERACT_WORD"@[0]); }
    assert("ONLINE_RANK_V2"@ != "SEND_GIFT"@) by { assert("ONLINE_RANK_V2"@[0] != "SEND_GIFT"@[0]); }
    assert(json_message(v) == online_rank(data));
}

/// A heartbeat reply carries the popularity count that its first four body
/// bytes spell in big-endian order, and nothing when the body is shorter.
pub proof fn lemma_popularity_message(p: PacketModel, body: Option<JsonValue>)
    requires
        p.op_code == 3,
    ensures
        p.body.len() >= 4 ==> (packet_message(p, body) matches Some(LiveMessageModel::Popularity(n))
            && n == p.body[0] * 16777216 + p.body[1] * 65536 + p.body[2] * 256 + p.body[3]),
        p.body.len() < 4 ==> packet_message(p, body) is None,
{
    if p.body.len() >= 4 {
        let (b0, b1, b2, b3) = (p.body[0], p.body[1], p.body[2], p.body[3]);
        assert(((b0 as u32) << 24u32) | ((b1 as u32) << 16u32) | ((b2 as u32) << 8u32) | (b3 as u32)
            == b0 * 16777216 + b1 * 65536 + b2 * 256 + b3) by (bit_vector);
    }
}

/// The message a packet carries depends on the JSON of its body alone: two
/// readings of the body that hold the same JSON give the same message.
pub proof fn lemma_packet_message_same(p: PacketModel, a: Option<JsonValue>, b: Option<JsonValue>)
    requires
        json::same_opt_json(a, b),
    ensures
        packet_message(p, a) == packet_message(p, b),
{
    if let (Some(x), Some(y)) = (a, b) {
        lemma_member_scalar(x, y, "code"@);
        lemma_json_message_same(x, y);
    }
}

/// Parses the message a packet carries, reading its body as JSON where the
/// operation calls for it.
pub fn parse_message(packet: &Packet) -> (res: Option<LiveMessage>)
    ensures
        opt_view(res) == packet_message(packet@, body_json(packet@)),
{
    let parsed: Option<JsonValue> = if packet.op_code == 8 {
        json::parse_json_bytes(packet.body.as_slice())
    } else if packet.op_code == 5 {
        let body_text = text::from_utf8_lossy(packet.body.as_slice());
        json::parse_json(body_text.as_str())
    } else {
        None
    };
    let res = parse_message_with(packet, parsed.as_ref());
    proof { lemma_packet_message_same(packet@, parsed, body_json(packet@)); }
    res
}

/// The messages that packets carry, in order.
pub open spec fn frame_messages(ps: Seq<PacketModel>) -> Seq<LiveMessageModel>
    decreases ps.len(),
{
    if ps.len() == 0 {
        seq![]
    } else {
        let prev = frame_messages(ps.drop_last());
        match packet_message(ps.last(), body_json(ps.last())) {
            Some(m) => prev.push(m),
            None => prev,
        }
    }
}

/// The code of the last authentication reply among `msgs`.
pub open spec fn last_auth_code(msgs: Seq<LiveMessageModel>) -> Option<i32>
    decreases msgs.len(),
{
    if msgs.len() == 0 {
        None
    } else {
        match msgs.last() {
            LiveMessageModel::AuthReply { code } => Some(code),
            _ => last_auth_code(msgs.drop_last()),
        }
    }
}

pub open spec fn messages_view(msgs: Seq<LiveMessage>) -> Seq<LiveMessageModel> {
    msgs.map_values(|m: LiveMessage| m@)
}

/// The messages of decoded packets, in order, and the code of the last
/// authentication reply among them.
pub fn process_packets(packets: &Vec<Packet>) -> (res: (Vec<LiveMessage>, Option<i32>))
    ensures
        messages_view(res.0@) == frame_messages(packets_view(packets@)),
        res.1 == last_auth_code(messages_view(res.0@)),
{
    let mut out: Vec<LiveMessage> = Vec::new();
    let mut auth: Option<i32> = None;
    let mut i: usize = 0;
    assert(packets_view(packets@).take(0) =~= Seq::<PacketModel>::empty());
    assert(messages_view(out@) =~= Seq::<LiveMessageModel>::empty());
    while i < packets.len()
        invariant
            i <= packets.len(),
            messages_view(out@) == frame_messages(packets_view(packets@).take(i as int)),
            auth == last_auth_code(messages_view(out@)),
        decreases packets.len() - i,
    {
        let m = parse_message(&packets[i]);
        let ghost before = out@;
        let ghost ps_next = packets_view(packets@).take(i + 1);
        proof {
            assert(ps_next.drop_last() =~= packets_view(packets@).take(i as int));
            assert(ps_next.last() == packets@[i as int]@);
        }
        match m {
            Some(msg) => {
                if let LiveMessage::AuthReply { code } = &msg {
                    auth = Some(*code);
                }
                let ghost mv = msg@;
                out.push(msg);
                assert(messages_view(out@) =~= messages_view(before).push(mv));
                assert(messages_view(out@).drop_last() =~= messages_view(before));
            },
            None => {},
        }
        i = i + 1;
    }
    assert(packets_view(packets@).take(packets.len() as int) =~= packets_view(packets@));
    (out, auth)
}

/// The messages of a websocket frame and the code of the last
/// authentication reply among them: `None` where decoding the frame would
/// not settle within `max_depth` levels of nested compressed bodies.
pub fn process_frame(data: &[u8], max_depth: u64) -> (res: Option<Result<(Vec<LiveMessage>, Option<i32>), DecodeError>>)
    ensures
        res is Some <==> settles(decode_from(data@, 0, max_depth as nat)),
        match res {
            Some(Ok((msgs, code))) => (match decode_spec(data@) {
                DecodeOutcome::Packets(ps) => messages_view(msgs@) == frame_messages(ps),
                _ => false,
            }) && code == last_auth_code(messages_view(msgs@)),
            Some(Err(e)) => decode_spec(data@) == DecodeOutcome::Failed(e),
            None => true,
        },
{
    match Packet::try_decode(data, max_depth) {
        Some(Ok(packets)) => {
            let res = process_packets(&packets);
            Some(Ok(res))
        },
        Some(Err(e)) => Some(Err(e)),
        None => None,
    }
}

// ---------------------------------------------------------------------------
// Authentication and API types
// ---------------------------------------------------------------------------

/// Authentication packet body.
#[derive(Debug)]
pub struct AuthBody {
    pub uid: i64,
    pub roomid: i64,
    pub protover: u8,
    pub platform: String,
    pub auth_type: u8,
    pub key: String,
    pub buvid: String,
}

/// Danmu info response.
#[derive(Debug)]
pub struct DanmuInfoData {
    pub token: String,
    pub host_list: Vec<DanmuHost>,
}

/// Danmu host info.
#[derive(Debug, Clone)]
pub struct DanmuHost {
    pub host: String,
    pub port: u16,
    pub wss_port: u16,
    pub ws_port: u16,
}

impl DanmuHost {
    /// The WebSocket URL: `wss://{host}:{wss_port}/sub`.
    pub fn wss_url(&self) -> (res: String)
        ensures
            res@ == "wss://"@ + self.host@ + seq![':'] + text::decimal(self.wss_port as nat) + "/sub"@,
    {
        let mut url = text::to_owned_string("wss://");
        text::push_str(&mut url, self.host.as_str());
        text::push_char(&mut url, ':');
        text::push_decimal(&mut url, self.wss_port as u64);
        text::push_str(&mut url, "/sub");
        url
    }
}

/// History danmaku response.
#[derive(Debug)]
pub struct HistoryDanmakuData {
    pub admin: Vec<HistoryDanmakuItem>,
    pub room: Vec<HistoryDanmakuItem>,
}

/// History danmaku item.
#[derive(Debug)]
pub struct HistoryDanmakuItem {
    pub text: String,
    pub uid: i64,
    pub nickname: String,
    pub uname_color: String,
    pub timeline: String,
}

} // verus!
