//! Core types of the Citadel Transfer protocol: packet headers, packets, and the
//! length-prefixed framing used to send a packet body.

use vstd::prelude::*;
use bytes::Bytes;

verus! {

/// Unique identifier for a logical stream of data
pub type StreamId = u128;

/// Configuration epoch/generation number
pub type Epoch = u32;

/// Sequence number for packet ordering
pub type SeqNo = u64;

/// Node identifier
pub type NodeId = u64;

/// Default MTU for payload data (optimal for most networks)
pub const DEFAULT_PAYLOAD_MTU: usize = 1200;

/// Message type classification
#[derive(Clone, Copy, Debug, PartialEq, Eq, Structural)]
pub enum MsgKind {
    /// Regular data packet
    Data,
    /// Acknowledgment packet
    Ack,
    /// Control message (flow control, etc.)
    Control,
    /// BFT consensus message
    Bft,
    /// TGP commit message (bilateral coordination complete)
    TgpCommit,
}

/// Packet header containing routing and sequencing information.
#[derive(Clone, Copy, Debug)]
pub struct PacketHeader {
    /// Stream this packet belongs to
    pub stream_id: StreamId,
    /// Configuration epoch
    pub epoch: Epoch,
    /// Sequence number within stream
    pub seq: SeqNo,
    /// Message type
    pub kind: MsgKind,
    /// Control flags
    pub flags: u8,
    /// Length of packet body
    pub body_len: u16,
}

impl PacketHeader {
    /// Create a new data packet header.
    pub fn new_data(stream_id: StreamId, epoch: Epoch, seq: SeqNo, body_len: u16) -> (hdr: PacketHeader)
        ensures
            hdr == (PacketHeader { stream_id, epoch, seq, kind: MsgKind::Data, flags: 0, body_len }),
    {
        PacketHeader { stream_id, epoch, seq, kind: MsgKind::Data, flags: 0, body_len }
    }

    /// Create a new control packet header (empty body).
    pub fn new_control(stream_id: StreamId, epoch: Epoch, seq: SeqNo) -> (hdr: PacketHeader)
        ensures
            hdr == (PacketHeader { stream_id, epoch, seq, kind: MsgKind::Control, flags: 0, body_len: 0 }),
    {
        PacketHeader { stream_id, epoch, seq, kind: MsgKind::Control, flags: 0, body_len: 0 }
    }
}

#[verifier::external_type_specification]
#[verifier::external_body]
pub struct ExBytes(Bytes);

/// The bytes held by a `Bytes` buffer.
pub uninterp spec fn bytes_view(b: Bytes) -> Seq<u8>;

/// Calls `Bytes::len`. Claimed: the number of bytes the buffer holds.
#[verifier::external_body]
fn bytes_len(b: &Bytes) -> (n: usize)
    ensures
        n == bytes_view(*b).len(),
{
    b.len()
}

/// Calls `<Bytes as AsRef<[u8]>>::as_ref`. Claimed: the slice is exactly the
/// bytes the buffer holds.
#[verifier::external_body]
fn bytes_as_slice(b: &Bytes) -> (s: &[u8])
    ensures
        s@ == bytes_view(*b),
{
    b.as_ref()
}

/// Complete packet with header and body.
#[derive(Debug)]
pub struct Packet {
    /// Packet header
    pub hdr: PacketHeader,
    /// Packet body/payload
    pub body: Bytes,
}

/// A length as carried in the 16-bit `body_len` field: the length modulo 2^16.
pub open spec fn len_u16(n: nat) -> u16 {
    (n % 65536) as u16
}

impl Packet {
    /// Create a new packet with the given header and body.
    pub fn new(hdr: PacketHeader, body: Bytes) -> (p: Packet)
        ensures
            p.hdr == hdr,
            p.body == body,
    {
        Packet { hdr, body }
    }

    /// Create a data packet; its header records the body length truncated to 16 bits.
    pub fn data(stream_id: StreamId, epoch: Epoch, seq: SeqNo, body: Bytes) -> (p: Packet)
        ensures
            p.hdr == (PacketHeader {
                stream_id,
                epoch,
                seq,
                kind: MsgKind::Data,
                flags: 0,
                body_len: len_u16(bytes_view(body).len()),
            }),
            p.body == body,
    {
        let n = bytes_len(&body);
        let body_len = (n % 65536) as u16;
        let hdr = PacketHeader::new_data(stream_id, epoch, seq, body_len);
        Packet { hdr, body }
    }

    /// Get the stream ID.
    pub fn stream_id(&self) -> (id: StreamId)
        ensures
            id == self.hdr.stream_id,
    {
        self.hdr.stream_id
    }

    /// Get the sequence number.
    pub fn seq(&self) -> (s: SeqNo)
        ensures
            s == self.hdr.seq,
    {
        self.hdr.seq
    }

    /// Check if this is a data packet.
    pub fn is_data(&self) -> (d: bool)
        ensures
            d == (self.hdr.kind == MsgKind::Data),
    {
        self.hdr.kind == MsgKind::Data
    }
}

/// The wire frame of a body: its length modulo 2^16 as two little-endian bytes,
/// then the body itself.
pub open spec fn frame_spec(body: Seq<u8>) -> Seq<u8> {
    seq![(len_u16(body.len()) % 256) as u8, (len_u16(body.len()) / 256) as u8] + body
}

/// Frame a packet for sending: a 2-byte little-endian length prefix, then the body.
pub fn encode_frame(pkt: &Packet) -> (frame: Vec<u8>)
    ensures
        frame@ == frame_spec(bytes_view(pkt.body)),
{
    let body = bytes_as_slice(&pkt.body);
    let n = body.len();
    let len16 = (n % 65536) as u16;
    let mut frame: Vec<u8> = Vec::new();
    frame.push((len16 % 256) as u8);
    frame.push((len16 / 256) as u8);
    let ghost head = frame@;
    let mut i: usize = 0;
    while i < n
        invariant
            i <= n,
            n == body@.len(),
            frame@ == head + body@.take(i as int),
        decreases n - i,
    {
        frame.push(body[i]);
        proof {
            assert(body@.take(i as int + 1) =~= body@.take(i as int).push(body@[i as int]));
        }
        i = i + 1;
    }
    proof {
        assert(body@.take(n as int) =~= body@);
        assert(frame@ =~= frame_spec(bytes_view(pkt.body)));
    }
    frame
}

/// The frame of a body is two bytes longer than the body, and its prefix gives
/// back the body length (modulo 2^16).
pub proof fn lemma_frame_length(body: Seq<u8>)
    ensures
        frame_spec(body).len() == body.len() + 2,
        frame_spec(body)[0] + 256 * frame_spec(body)[1] == body.len() % 65536,
        frame_spec(body).subrange(2, frame_spec(body).len() as int) == body,
{
    assert(frame_spec(body).subrange(2, frame_spec(body).len() as int) =~= body);
}

} // verus!
