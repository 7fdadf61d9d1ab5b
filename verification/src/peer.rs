//! Peers, the handshake, and the messages of the peer wire protocol.

use crate::error::EngineError;
use crate::text::{decimal, push_char, push_decimal};
use vstd::prelude::*;
use vstd::string::StringExecFns;

verus! {

/// Length of the protocol identifier.
pub const PROTOCOL_LEN: u8 = 19;

/// Length of a handshake on the wire.
pub const HANDSHAKE_LEN: usize = 68;

/// A remote peer, as a tracker named it, for one torrent.
#[derive(Clone, Debug)]
pub struct Peer {
    pub peer_id: Option<String>,
    pub ip: Option<String>,
    pub port: Option<u64>,
    /// The info hash of the torrent that the peer is asked for.
    pub info_hash: Vec<u8>,
    /// The time of the announce that named the peer last.
    pub last_seen: u64,
}

impl Peer {
    /// The address to connect to: host, a colon, the port in decimal.
    pub fn to_address(&self) -> (address: String)
        requires
            self.ip is Some,
            self.port is Some,
        ensures
            address@ == self.ip.unwrap()@ + seq![':'] + decimal(self.port.unwrap() as nat),
    {
        let mut address = String::new();
        match &self.ip {
            Some(ip) => {
                address.append(ip.as_str());
            },
            None => {},
        }
        push_char(&mut address, ':');
        match self.port {
            Some(port) => {
                push_decimal(&mut address, port);
            },
            None => {},
        }
        assert(address@ =~= self.ip.unwrap()@ + seq![':'] + decimal(self.port.unwrap() as nat));
        address
    }
}

/// The protocol identifier, the ASCII text `BitTorrent protocol`.
pub open spec fn protocol_id() -> Seq<u8> {
    seq![
        66u8,
        105u8,
        116u8,
        84u8,
        111u8,
        114u8,
        114u8,
        101u8,
        110u8,
        116u8,
        32u8,
        112u8,
        114u8,
        111u8,
        116u8,
        111u8,
        99u8,
        111u8,
        108u8,
    ]
}

/// The first message on a connection, in both directions.
#[derive(Clone, Copy, Debug)]
pub struct Handshake {
    /// The protocol identifier, 19 bytes.
    pub protocol: [u8; 19],
    /// Reserved, 8 bytes.
    pub reserved: [u8; 8],
    /// The info hash of the torrent, 20 bytes.
    pub info_hash: [u8; 20],
    /// The sender's peer id, 20 bytes.
    pub peer_id: [u8; 20],
}

/// The 68 bytes of a handshake: the identifier's length, the identifier, the
/// reserved bytes, the info hash, the peer id.
pub open spec fn handshake_bytes(h: Handshake) -> Seq<u8> {
    seq![PROTOCOL_LEN] + h.protocol@ + h.reserved@ + h.info_hash@ + h.peer_id@
}

/// Whether `bytes` are a handshake of this protocol.
pub open spec fn is_handshake(bytes: Seq<u8>) -> bool {
    bytes.len() == HANDSHAKE_LEN && bytes[0] == PROTOCOL_LEN && bytes.subrange(1, 20)
        == protocol_id()
}

/// The protocol identifier.
fn protocol_array() -> (p: [u8; 19])
    ensures
        p@ == protocol_id(),
{
    let p: [u8; 19] = [
        66,
        105,
        116,
        84,
        111,
        114,
        114,
        101,
        110,
        116,
        32,
        112,
        114,
        111,
        116,
        111,
        99,
        111,
        108,
    ];
    assert(p@ =~= protocol_id());
    p
}

/// The twenty bytes of `src` from `from` on.
fn twenty_from(src: &[u8], from: usize) -> (out: [u8; 20])
    requires
        from + 20 <= src@.len(),
    ensures
        out@ == src@.subrange(from as int, from + 20),
{
    let mut out: [u8; 20] = [0u8; 20];
    let mut i: usize = 0;
    while i < 20
        invariant
            i <= 20,
            from + 20 <= src.len(),
            forall|k: int| 0 <= k < i ==> out@[k] == src@[from + k],
        decreases 20 - i,
    {
        out[i] = src[from + i];
        i += 1;
    }
    assert(out@ =~= src@.subrange(from as int, from + 20));
    out
}

impl Handshake {
    /// The handshake for the torrent named by the first twenty bytes of
    /// `info_hash`, from the peer named by the first twenty bytes of
    /// `peer_id`. The reserved bytes are zero.
    pub fn new(info_hash: &[u8], peer_id: &[u8]) -> (h: Self)
        requires
            info_hash@.len() >= 20,
            peer_id@.len() >= 20,
        ensures
            h.protocol@ == protocol_id(),
            h.reserved@ == Seq::new(8, |i: int| 0u8),
            h.info_hash@ == info_hash@.subrange(0, 20),
            h.peer_id@ == peer_id@.subrange(0, 20),
    {
        let reserved: [u8; 8] = [0u8; 8];
        assert(reserved@ =~= Seq::new(8, |i: int| 0u8));
        Handshake {
            protocol: protocol_array(),
            reserved,
            info_hash: twenty_from(info_hash, 0),
            peer_id: twenty_from(peer_id, 0),
        }
    }

    /// The handshake as it goes over the wire.
    pub fn to_bytes(&self) -> (bytes: Vec<u8>)
        ensures
            bytes@ == handshake_bytes(*self),
            bytes@.len() == HANDSHAKE_LEN,
    {
        let mut bytes: Vec<u8> = Vec::new();
        bytes.push(PROTOCOL_LEN);
        let mut i: usize = 0;
        while i < 19
            invariant
                i <= 19,
                bytes@ == seq![PROTOCOL_LEN] + self.protocol@.subrange(0, i as int),
            decreases 19 - i,
        {
            bytes.push(self.protocol[i]);
            i += 1;
            assert(bytes@ =~= seq![PROTOCOL_LEN] + self.protocol@.subrange(0, i as int));
        }
        assert(self.protocol@.subrange(0, 19) =~= self.protocol@);
        let mut i: usize = 0;
        while i < 8
            invariant
                i <= 8,
                bytes@ == seq![PROTOCOL_LEN] + self.protocol@ + self.reserved@.subrange(
                    0,
                    i as int,
                ),
            decreases 8 - i,
        {
            bytes.push(self.reserved[i]);
            i += 1;
            assert(bytes@ =~= seq![PROTOCOL_LEN] + self.protocol@ + self.reserved@.subrange(
                0,
                i as int,
            ));
        }
        assert(self.reserved@.subrange(0, 8) =~= self.reserved@);
        let mut i: usize = 0;
        while i < 20
            invariant
                i <= 20,
                bytes@ == seq![PROTOCOL_LEN] + self.protocol@ + self.reserved@
                    + self.info_hash@.subrange(0, i as int),
            decreases 20 - i,
        {
            bytes.push(self.info_hash[i]);
            i += 1;
            assert(bytes@ =~= seq![PROTOCOL_LEN] + self.protocol@ + self.reserved@
                + self.info_hash@.subrange(0, i as int));
        }
        assert(self.info_hash@.subrange(0, 20) =~= self.info_hash@);
        let mut i: usize = 0;
        while i < 20
            invariant
                i <= 20,
                bytes@ == seq![PROTOCOL_LEN] + self.protocol@ + self.reserved@ + self.info_hash@
                    + self.peer_id@.subrange(0, i as int),
            decreases 20 - i,
        {
            bytes.push(self.peer_id[i]);
            i += 1;
            assert(bytes@ =~= seq![PROTOCOL_LEN] + self.protocol@ + self.reserved@
                + self.info_hash@ + self.peer_id@.subrange(0, i as int));
        }
        assert(self.peer_id@.subrange(0, 20) =~= self.peer_id@);
        bytes
    }

    /// Reads a handshake; `None` where the bytes are not 68 or do not start
    /// with the protocol identifier and its length.
    pub fn from_bytes(bytes: &[u8]) -> (out: Option<Self>)
        ensures
            out is Some <==> is_handshake(bytes@),
            out matches Some(h) ==> handshake_bytes(h) == bytes@,
    {
        if bytes.len() != HANDSHAKE_LEN {
            return None;
        }
        if bytes[0] != PROTOCOL_LEN {
            return None;
        }
        let expected = protocol_array();
        let mut protocol: [u8; 19] = [0u8; 19];
        let mut i: usize = 0;
        while i < 19
            invariant
                i <= 19,
                bytes@.len() == HANDSHAKE_LEN,
                expected@ == protocol_id(),
                forall|k: int| 0 <= k < i ==> protocol@[k] == bytes@[1 + k],
                forall|k: int| 0 <= k < i ==> bytes@[1 + k] == expected@[k],
            decreases 19 - i,
        {
            if bytes[1 + i] != expected[i] {
                assert(bytes@.subrange(1, 20)[i as int] != protocol_id()[i as int]);
                return None;
            }
            protocol[i] = bytes[1 + i];
            i += 1;
        }
        assert(bytes@.subrange(1, 20) =~= protocol_id());
        let mut reserved: [u8; 8] = [0u8; 8];
        let mut i: usize = 0;
        while i < 8
            invariant
                i <= 8,
                bytes@.len() == HANDSHAKE_LEN,
                forall|k: int| 0 <= k < i ==> reserved@[k] == bytes@[20 + k],
            decreases 8 - i,
        {
            reserved[i] = bytes[20 + i];
            i += 1;
        }
        let h = Handshake {
            protocol,
            reserved,
            info_hash: twenty_from(bytes, 28),
            peer_id: twenty_from(bytes, 48),
        };
        assert(handshake_bytes(h) =~= bytes@);
        Some(h)
    }

    /// Judges the handshake that a peer sent back. It must be a handshake of
    /// this protocol, else the peer broke the protocol; and it must name the
    /// torrent that this handshake names, else the connection is closed for
    /// a mismatch.
    pub fn check_reply(&self, reply: &[u8]) -> (out: Result<Handshake, EngineError>)
        ensures
            match out {
                Ok(theirs) => is_handshake(reply@) && handshake_bytes(theirs) == reply@
                    && theirs.info_hash@ == self.info_hash@,
                Err(e) => if is_handshake(reply@) {
                    e == EngineError::HandshakeMismatch && reply@.subrange(28, 48)
                        != self.info_hash@
                } else {
                    e == EngineError::ProtocolViolation
                },
            },
    {
        match Handshake::from_bytes(reply) {
            None => Err(EngineError::ProtocolViolation),
            Some(theirs) => {
                assert(theirs.info_hash@ =~= reply@.subrange(28, 48)) by {
                    assert(handshake_bytes(theirs) == reply@);
                    assert forall|k: int| 0 <= k < 20 implies theirs.info_hash@[k] == reply@[28
                        + k] by {
                        assert(handshake_bytes(theirs)[28 + k] == theirs.info_hash@[k]);
                    }
                }
                let mut i: usize = 0;
                while i < 20
                    invariant
                        i <= 20,
                        is_handshake(reply@),
                        theirs.info_hash@ == reply@.subrange(28, 48),
                        forall|k: int| 0 <= k < i ==> theirs.info_hash@[k] == self.info_hash@[k],
                    decreases 20 - i,
                {
                    if theirs.info_hash[i] != self.info_hash[i] {
                        assert(reply@.subrange(28, 48)[i as int] != self.info_hash@[i as int]);
                        return Err(EngineError::HandshakeMismatch);
                    }
                    i += 1;
                }
                assert(theirs.info_hash@ =~= self.info_hash@);
                Ok(theirs)
            },
        }
    }
}

/// A handshake of this protocol is read back as it was written.
pub proof fn lemma_handshake_round_trip(h: Handshake, back: Handshake)
    requires
        h.protocol@ == protocol_id(),
        handshake_bytes(back) == handshake_bytes(h),
    ensures
        is_handshake(handshake_bytes(h)),
        back.protocol@ == h.protocol@,
        back.reserved@ == h.reserved@,
        back.info_hash@ == h.info_hash@,
        back.peer_id@ == h.peer_id@,
{
    let bytes = handshake_bytes(h);
    let other = handshake_bytes(back);
    assert(bytes.subrange(1, 20) =~= h.protocol@);
    assert(other.subrange(1, 20) =~= back.protocol@);
    assert(bytes.subrange(20, 28) =~= h.reserved@);
    assert(other.subrange(20, 28) =~= back.reserved@);
    assert(bytes.subrange(28, 48) =~= h.info_hash@);
    assert(other.subrange(28, 48) =~= back.info_hash@);
    assert(bytes.subrange(48, 68) =~= h.peer_id@);
    assert(other.subrange(48, 68) =~= back.peer_id@);
}

/// The kinds of message that carry an id on the wire.
#[derive(Clone, Copy, Debug, PartialEq, Eq, Structural)]
pub enum MessageType {
    MsgChoke,
    MsgUnchoke,
    MsgInterested,
    MsgNotInterested,
    MsgHave,
    MsgBitfield,
    MsgRequest,
    MsgPiece,
    MsgCancel,
}

impl MessageType {
    /// The id that stands for this kind on the wire.
    pub open spec fn wire_id(self) -> u8 {
        match self {
            MessageType::MsgChoke => 0,
            MessageType::MsgUnchoke => 1,
            MessageType::MsgInterested => 2,
            MessageType::MsgNotInterested => 3,
            MessageType::MsgHave => 4,
            MessageType::MsgBitfield => 5,
            MessageType::MsgRequest => 6,
            MessageType::MsgPiece => 7,
            MessageType::MsgCancel => 8,
        }
    }

    /// The id that stands for this kind on the wire.
    pub fn id(&self) -> (id: u8)
        ensures
            id == self.wire_id(),
    {
        match self {
            MessageType::MsgChoke => 0,
            MessageType::MsgUnchoke => 1,
            MessageType::MsgInterested => 2,
            MessageType::MsgNotInterested => 3,
            MessageType::MsgHave => 4,
            MessageType::MsgBitfield => 5,
            MessageType::MsgRequest => 6,
            MessageType::MsgPiece => 7,
            MessageType::MsgCancel => 8,
        }
    }

    /// The kind that an id stands for; `None` for an id that is not known.
    pub fn from_id(id: u8) -> (kind: Option<MessageType>)
        ensures
            id <= 8 <==> kind is Some,
            kind matches Some(k) ==> k.wire_id() == id,
    {
        match id {
            0 => Some(MessageType::MsgChoke),
            1 => Some(MessageType::MsgUnchoke),
            2 => Some(MessageType::MsgInterested),
            3 => Some(MessageType::MsgNotInterested),
            4 => Some(MessageType::MsgHave),
            5 => Some(MessageType::MsgBitfield),
            6 => Some(MessageType::MsgRequest),
            7 => Some(MessageType::MsgPiece),
            8 => Some(MessageType::MsgCancel),
            _ => None,
        }
    }
}

/// The four bytes of `x`, big end first.
pub open spec fn be32(x: u32) -> Seq<u8> {
    seq![
        (x / 0x100_0000) as u8,
        (x / 0x1_0000 % 256) as u8,
        (x / 0x100 % 256) as u8,
        (x % 256) as u8,
    ]
}

/// The number that the four bytes of `bytes` from `at` on stand for, big
/// end first.
pub open spec fn from_be32(bytes: Seq<u8>, at: int) -> int {
    bytes[at] * 0x100_0000 + bytes[at + 1] * 0x1_0000 + bytes[at + 2] * 0x100 + bytes[at + 3]
}

/// Reading back the bytes of a number gives the number.
pub proof fn lemma_be32_round_trip(x: u32, bytes: Seq<u8>, at: int)
    requires
        0 <= at,
        at + 4 <= bytes.len(),
        bytes.subrange(at, at + 4) == be32(x),
    ensures
        from_be32(bytes, at) == x,
{
    assert(bytes[at] == bytes.subrange(at, at + 4)[0]);
    assert(bytes[at + 1] == bytes.subrange(at, at + 4)[1]);
    assert(bytes[at + 2] == bytes.subrange(at, at + 4)[2]);
    assert(bytes[at + 3] == bytes.subrange(at, at + 4)[3]);
}

/// Appends the four bytes of `x`, big end first.
pub fn push_be32(out: &mut Vec<u8>, x: u32)
    ensures
        final(out)@ == old(out)@ + be32(x),
{
    out.push((x / 0x100_0000) as u8);
    out.push((x / 0x1_0000 % 256) as u8);
    out.push((x / 0x100 % 256) as u8);
    out.push((x % 256) as u8);
    assert(final(out)@ =~= old(out)@ + be32(x));
}

/// Reads four bytes from `at` on as a number, big end first.
pub fn read_be32(bytes: &[u8], at: usize) -> (x: u32)
    requires
        at + 4 <= bytes@.len(),
    ensures
        x == from_be32(bytes@, at as int),
{
    (bytes[at] as u32) * 0x100_0000 + (bytes[at + 1] as u32) * 0x1_0000 + (bytes[at + 2] as u32)
        * 0x100 + (bytes[at + 3] as u32)
}

/// The bytes `from .. to` of `bytes`.
pub fn copy_range(bytes: &[u8], from: usize, to: usize) -> (out: Vec<u8>)
    requires
        from <= to <= bytes@.len(),
    ensures
        out@ == bytes@.subrange(from as int, to as int),
{
    let mut out: Vec<u8> = Vec::new();
    let mut i: usize = from;
    while i < to
        invariant
            from <= i <= to,
            to <= bytes@.len(),
            out@ == bytes@.subrange(from as int, i as int),
        decreases to - i,
    {
        out.push(bytes[i]);
        i += 1;
        assert(out@ =~= bytes@.subrange(from as int, i as int));
    }
    out
}

/// The head of a message on the wire: the length prefix, which counts the
/// id and the payload, and the id.
#[derive(Clone, Copy, Debug)]
pub struct Message {
    pub length: [u8; 4],
    pub msg_type: [u8; 1],
}

impl Message {
    /// The head of a message of kind `kind` with `payload_len` bytes of
    /// payload.
    pub fn new(kind: MessageType, payload_len: u32) -> (m: Self)
        requires
            payload_len < u32::MAX,
        ensures
            m.length@ == be32((payload_len + 1) as u32),
            m.msg_type@ == seq![kind.wire_id()],
    {
        let n: u32 = payload_len + 1;
        let length: [u8; 4] = [
            (n / 0x100_0000) as u8,
            (n / 0x1_0000 % 256) as u8,
            (n / 0x100 % 256) as u8,
            (n % 256) as u8,
        ];
        let msg_type: [u8; 1] = [kind.id()];
        assert(length@ =~= be32(n));
        assert(msg_type@ =~= seq![kind.wire_id()]);
        Message { length, msg_type }
    }

    /// The five bytes of the head.
    pub fn to_bytes(&self) -> (bytes: Vec<u8>)
        ensures
            bytes@ == self.length@ + self.msg_type@,
    {
        let mut bytes: Vec<u8> = Vec::new();
        bytes.push(self.length[0]);
        bytes.push(self.length[1]);
        bytes.push(self.length[2]);
        bytes.push(self.length[3]);
        bytes.push(self.msg_type[0]);
        assert(bytes@ =~= self.length@ + self.msg_type@);
        bytes
    }
}

/// A message of the peer wire protocol.
#[derive(Clone, Debug, PartialEq, Eq)]
pub enum PeerMessage {
    /// An empty frame that keeps the connection open.
    KeepAlive,
    /// The sender will not serve requests.
    Choke,
    /// The sender will serve requests.
    Unchoke,
    /// The sender wants blocks.
    Interested,
    /// The sender wants no blocks.
    NotInterested,
    /// The sender has completed a piece.
    Have { piece: u32 },
    /// The pieces that the sender has, one bit each, high bit first.
    Bitfield { bits: Vec<u8> },
    /// The sender asks for a block.
    Request { piece: u32, offset: u32, length: u32 },
    /// The sender delivers a block.
    Piece { piece: u32, offset: u32, block: Vec<u8> },
    /// The sender withdraws a request.
    Cancel { piece: u32, offset: u32, length: u32 },
    /// A message of an id that is not known; its payload was skipped.
    Unknown { id: u8 },
}

/// The mathematical content of a `PeerMessage`.
pub enum MessageModel {
    KeepAlive,
    Choke,
    Unchoke,
    Interested,
    NotInterested,
    Have { piece: u32 },
    Bitfield { bits: Seq<u8> },
    Request { piece: u32, offset: u32, length: u32 },
    Piece { piece: u32, offset: u32, block: Seq<u8> },
    Cancel { piece: u32, offset: u32, length: u32 },
    Unknown { id: u8 },
}

impl View for PeerMessage {
    type V = MessageModel;

    open spec fn view(&self) -> MessageModel {
        match *self {
            PeerMessage::KeepAlive => MessageModel::KeepAlive,
            PeerMessage::Choke => MessageModel::Choke,
            PeerMessage::Unchoke => MessageModel::Unchoke,
            PeerMessage::Interested => MessageModel::Interested,
            PeerMessage::NotInterested => MessageModel::NotInterested,
            PeerMessage::Have { piece } => MessageModel::Have { piece },
            PeerMessage::Bitfield { bits } => MessageModel::Bitfield { bits: bits@ },
            PeerMessage::Request { piece, offset, length } => MessageModel::Request {
                piece,
                offset,
                length,
            },
            PeerMessage::Piece { piece, offset, block } => MessageModel::Piece {
                piece,
                offset,
                block: block@,
            },
            PeerMessage::Cancel { piece, offset, length } => MessageModel::Cancel {
                piece,
                offset,
                length,
            },
            PeerMessage::Unknown { id } => MessageModel::Unknown { id },
        }
    }
}

/// A frame: the length of id and payload in four bytes, the id, the payload.
pub open spec fn frame(id: u8, payload: Seq<u8>) -> Seq<u8> {
    be32((payload.len() + 1) as u32) + seq![id] + payload
}

/// The bytes of a message on the wire. A message of an unknown id is never
/// sent: it has no bytes.
pub open spec fn encoded(m: MessageModel) -> Seq<u8> {
    match m {
        MessageModel::KeepAlive => be32(0),
        MessageModel::Choke => frame(0, Seq::empty()),
        MessageModel::Unchoke => frame(1, Seq::empty()),
        MessageModel::Interested => frame(2, Seq::empty()),
        MessageModel::NotInterested => frame(3, Seq::empty()),
        MessageModel::Have { piece } => frame(4, be32(piece)),
        MessageModel::Bitfield { bits } => frame(5, bits),
        MessageModel::Request { piece, offset, length } => frame(
            6,
            be32(piece) + be32(offset) + be32(length),
        ),
        MessageModel::Piece { piece, offset, block } => frame(7, be32(piece) + be32(offset) + block),
        MessageModel::Cancel { piece, offset, length } => frame(
            8,
            be32(piece) + be32(offset) + be32(length),
        ),
        MessageModel::Unknown { id } => Seq::empty(),
    }
}

/// Whether a message can be sent: its id is known and its payload fits the
/// length prefix.
pub open spec fn sendable(m: MessageModel) -> bool {
    match m {
        MessageModel::Bitfield { bits } => bits.len() + 1 <= u32::MAX,
        MessageModel::Piece { piece, offset, block } => block.len() + 9 <= u32::MAX,
        MessageModel::Unknown { id } => false,
        _ => true,
    }
}

/// What the front of a stream of bytes holds.
pub enum DecodedModel {
    /// Not yet a whole message: more bytes are needed.
    Incomplete,
    /// The peer broke the protocol: the connection is to be closed.
    Violation,
    /// A message, and the number of bytes that it took.
    Message { message: MessageModel, used: int },
}

/// The message that a frame of id `id` with payload `payload` holds, or
/// `None` where the payload's length does not fit a message of that id.
pub open spec fn message_of(id: u8, payload: Seq<u8>) -> Option<MessageModel> {
    if id == 0 {
        if payload.len() == 0 {
            Some(MessageModel::Choke)
        } else {
            None
        }
    } else if id == 1 {
        if payload.len() == 0 {
            Some(MessageModel::Unchoke)
        } else {
            None
        }
    } else if id == 2 {
        if payload.len() == 0 {
            Some(MessageModel::Interested)
        } else {
            None
        }
    } else if id == 3 {
        if payload.len() == 0 {
            Some(MessageModel::NotInterested)
        } else {
            None
        }
    } else if id == 4 {
        if payload.len() == 4 {
            Some(MessageModel::Have { piece: from_be32(payload, 0) as u32 })
        } else {
            None
        }
    } else if id == 5 {
        Some(MessageModel::Bitfield { bits: payload })
    } else if id == 6 {
        if payload.len() == 12 {
            Some(
                MessageModel::Request {
                    piece: from_be32(payload, 0) as u32,
                    offset: from_be32(payload, 4) as u32,
                    length: from_be32(payload, 8) as u32,
                },
            )
        } else {
            None
        }
    } else if id == 7 {
        if payload.len() >= 8 {
            Some(
                MessageModel::Piece {
                    piece: from_be32(payload, 0) as u32,
                    offset: from_be32(payload, 4) as u32,
                    block: payload.subrange(8, payload.len() as int),
                },
            )
        } else {
            None
        }
    } else if id == 8 {
        if payload.len() == 12 {
            Some(
                MessageModel::Cancel {
                    piece: from_be32(payload, 0) as u32,
                    offset: from_be32(payload, 4) as u32,
                    length: from_be32(payload, 8) as u32,
                },
            )
        } else {
            None
        }
    } else {
        Some(MessageModel::Unknown { id })
    }
}

/// What the front of `buf` holds, where no frame may be longer than
/// `max_len`. A length prefix of zero is a keep-alive. A prefix above
/// `max_len` is a violation, whatever the id: such a frame cannot be skipped
/// safely. A frame of an unknown id is skipped by its declared length. A
/// frame of a known id whose payload has the wrong length is a violation.
#[verifier::opaque]
pub open spec fn decoded(buf: Seq<u8>, max_len: u32) -> DecodedModel {
    if buf.len() < 4 {
        DecodedModel::Incomplete
    } else {
        let len = from_be32(buf, 0);
        if len == 0 {
            DecodedModel::Message { message: MessageModel::KeepAlive, used: 4 }
        } else if len > max_len {
            DecodedModel::Violation
        } else if buf.len() < 4 + len {
            DecodedModel::Incomplete
        } else {
            match message_of(buf[4], buf.subrange(5, 4 + len)) {
                Some(message) => DecodedModel::Message { message, used: 4 + len },
                None => DecodedModel::Violation,
            }
        }
    }
}

/// What `decode` found at the front of a stream of bytes.
#[derive(Clone, Debug, PartialEq, Eq)]
pub enum Decoded {
    /// Not yet a whole message: more bytes are needed.
    Incomplete,
    /// The peer broke the protocol: the connection is to be closed.
    Violation,
    /// A message, and the number of bytes that it took.
    Message { message: PeerMessage, used: usize },
}

impl View for Decoded {
    type V = DecodedModel;

    open spec fn view(&self) -> DecodedModel {
        match *self {
            Decoded::Incomplete => DecodedModel::Incomplete,
            Decoded::Violation => DecodedModel::Violation,
            Decoded::Message { message, used } => DecodedModel::Message {
                message: message@,
                used: used as int,
            },
        }
    }
}

/// The head of a frame: the length prefix and the id.
fn frame_head(id: u8, payload_len: u32) -> (out: Vec<u8>)
    requires
        payload_len < u32::MAX,
    ensures
        out@ == be32((payload_len + 1) as u32) + seq![id],
{
    let mut out: Vec<u8> = Vec::new();
    push_be32(&mut out, payload_len + 1);
    out.push(id);
    assert(out@ =~= be32((payload_len + 1) as u32) + seq![id]);
    out
}

/// Appends `bytes` to `out`.
fn push_all(out: &mut Vec<u8>, bytes: &[u8])
    ensures
        final(out)@ == old(out)@ + bytes@,
{
    let ghost before = out@;
    let mut i: usize = 0;
    while i < bytes.len()
        invariant
            i <= bytes@.len(),
            out@ == before + bytes@.subrange(0, i as int),
        decreases bytes@.len() - i,
    {
        out.push(bytes[i]);
        i += 1;
        assert(out@ =~= before + bytes@.subrange(0, i as int));
    }
    assert(bytes@.subrange(0, bytes@.len() as int) =~= bytes@);
}

impl PeerMessage {
    /// The bytes of the message on the wire; `None` for a message that
    /// cannot be sent.
    pub fn encode(&self) -> (out: Option<Vec<u8>>)
        ensures
            out is Some <==> sendable(self@),
            out matches Some(bytes) ==> bytes@ == encoded(self@),
    {
        match self {
            PeerMessage::KeepAlive => {
                let mut out: Vec<u8> = Vec::new();
                push_be32(&mut out, 0);
                assert(out@ =~= be32(0));
                Some(out)
            },
            PeerMessage::Choke => {
                let out = frame_head(0, 0);
                assert(out@ =~= frame(0, Seq::empty()));
                Some(out)
            },
            PeerMessage::Unchoke => {
                let out = frame_head(1, 0);
                assert(out@ =~= frame(1, Seq::empty()));
                Some(out)
            },
            PeerMessage::Interested => {
                let out = frame_head(2, 0);
                assert(out@ =~= frame(2, Seq::empty()));
                Some(out)
            },
            PeerMessage::NotInterested => {
                let out = frame_head(3, 0);
                assert(out@ =~= frame(3, Seq::empty()));
                Some(out)
            },
            PeerMessage::Have { piece } => {
                let mut out = frame_head(4, 4);
                push_be32(&mut out, *piece);
                assert(out@ =~= frame(4, be32(*piece)));
                Some(out)
            },
            PeerMessage::Bitfield { bits } => {
                if bits.len() >= 0xffff_ffff {
                    return None;
                }
                let mut out = frame_head(5, bits.len() as u32);
                push_all(&mut out, bits.as_slice());
                assert(out@ =~= frame(5, bits@));
                Some(out)
            },
            PeerMessage::Request { piece, offset, length } => {
                let mut out = frame_head(6, 12);
                push_be32(&mut out, *piece);
                push_be32(&mut out, *offset);
                push_be32(&mut out, *length);
                assert(out@ =~= frame(6, be32(*piece) + be32(*offset) + be32(*length)));
                Some(out)
            },
            PeerMessage::Piece { piece, offset, block } => {
                if block.len() >= 0xffff_ffff - 8 {
                    return None;
                }
                let mut out = frame_head(7, (block.len() + 8) as u32);
                push_be32(&mut out, *piece);
                push_be32(&mut out, *offset);
                push_all(&mut out, block.as_slice());
                assert(out@ =~= frame(7, be32(*piece) + be32(*offset) + block@));
                Some(out)
            },
            PeerMessage::Cancel { piece, offset, length } => {
                let mut out = frame_head(8, 12);
                push_be32(&mut out, *piece);
                push_be32(&mut out, *offset);
                push_be32(&mut out, *length);
                assert(out@ =~= frame(8, be32(*piece) + be32(*offset) + be32(*length)));
                Some(out)
            },
            PeerMessage::Unknown { .. } => None,
        }
    }

    /// Reads the message at the front of `buf`, where no frame may be longer
    /// than `max_len`.
    pub fn decode(buf: &[u8], max_len: u32) -> (out: Decoded)
        ensures
            out@ == decoded(buf@, max_len),
    {
        reveal(decoded);
        if buf.len() < 4 {
            return Decoded::Incomplete;
        }
        let len = read_be32(buf, 0);
        if len == 0 {
            return Decoded::Message { message: PeerMessage::KeepAlive, used: 4 };
        }
        if len > max_len {
            return Decoded::Violation;
        }
        if (buf.len() as u64) < 4 + len as u64 {
            return Decoded::Incomplete;
        }
        let end: usize = 4 + len as usize;
        let id = buf[4];
        let n: usize = end - 5;
        let ghost payload = buf@.subrange(5, end as int);
        assert(forall|k: int| 0 <= k < n ==> payload[k] == buf@[5 + k]);
        let message = match id {
            0 => {
                if n != 0 {
                    return Decoded::Violation;
                }
                PeerMessage::Choke
            },
            1 => {
                if n != 0 {
                    return Decoded::Violation;
                }
                PeerMessage::Unchoke
            },
            2 => {
                if n != 0 {
                    return Decoded::Violation;
                }
                PeerMessage::Interested
            },
            3 => {
                if n != 0 {
                    return Decoded::Violation;
                }
                PeerMessage::NotInterested
            },
            4 => {
                if n != 4 {
                    return Decoded::Violation;
                }
                PeerMessage::Have { piece: read_be32(buf, 5) }
            },
            5 => {
                PeerMessage::Bitfield { bits: copy_range(buf, 5, end) }
            },
            6 => {
                if n != 12 {
                    return Decoded::Violation;
                }
                PeerMessage::Request {
                    piece: read_be32(buf, 5),
                    offset: read_be32(buf, 9),
                    length: read_be32(buf, 13),
                }
            },
            7 => {
                if n < 8 {
                    return Decoded::Violation;
                }
                let block = copy_range(buf, 13, end);
                assert(block@ =~= payload.subrange(8, payload.len() as int));
                PeerMessage::Piece { piece: read_be32(buf, 5), offset: read_be32(buf, 9), block }
            },
            8 => {
                if n != 12 {
                    return Decoded::Violation;
                }
                PeerMessage::Cancel {
                    piece: read_be32(buf, 5),
                    offset: read_be32(buf, 9),
                    length: read_be32(buf, 13),
                }
            },
            _ => PeerMessage::Unknown { id },
        };
        assert(Some(message@) == message_of(id, payload));
        Decoded::Message { message, used: end }
    }
}

/// A frame is read back by its id and payload, whatever follows it on the
/// stream, where it is not longer than the limit.
pub proof fn lemma_frame_decodes(id: u8, payload: Seq<u8>, rest: Seq<u8>, max_len: u32)
    requires
        payload.len() + 1 <= max_len,
    ensures
        decoded(frame(id, payload) + rest, max_len) == (match message_of(id, payload) {
            Some(message) => DecodedModel::Message { message, used: 5 + payload.len() as int },
            None => DecodedModel::Violation,
        }),
{
    reveal(decoded);
    let n = (payload.len() + 1) as u32;
    let buf = frame(id, payload) + rest;
    assert(buf.subrange(0, 4) =~= be32(n));
    lemma_be32_round_trip(n, buf, 0);
    assert(buf[4] == id);
    assert(buf.subrange(5, 4 + n) =~= payload);
}

/// Three numbers written one after the other are read back as they were.
pub proof fn lemma_three_numbers(a: u32, b: u32, c: u32)
    ensures
        from_be32(be32(a) + be32(b) + be32(c), 0) == a,
        from_be32(be32(a) + be32(b) + be32(c), 4) == b,
        from_be32(be32(a) + be32(b) + be32(c), 8) == c,
        (be32(a) + be32(b) + be32(c)).len() == 12,
{
    let s = be32(a) + be32(b) + be32(c);
    assert(s.subrange(0, 4) =~= be32(a));
    assert(s.subrange(4, 8) =~= be32(b));
    assert(s.subrange(8, 12) =~= be32(c));
    lemma_be32_round_trip(a, s, 0);
    lemma_be32_round_trip(b, s, 4);
    lemma_be32_round_trip(c, s, 8);
}

/// The payload of a delivered block is read back as it was written.
pub proof fn lemma_block_payload(piece: u32, offset: u32, block: Seq<u8>)
    ensures
        message_of(7, be32(piece) + be32(offset) + block) == Some(
            MessageModel::Piece { piece, offset, block },
        ),
{
    let s = be32(piece) + be32(offset) + block;
    assert(s.subrange(0, 4) =~= be32(piece));
    assert(s.subrange(4, 8) =~= be32(offset));
    assert(s.subrange(8, s.len() as int) =~= block);
    lemma_be32_round_trip(piece, s, 0);
    lemma_be32_round_trip(offset, s, 4);
}

/// A frame whose payload fits its id is read back as the message that it
/// holds.
pub proof fn lemma_frame_message(
    id: u8,
    payload: Seq<u8>,
    m: MessageModel,
    rest: Seq<u8>,
    max_len: u32,
)
    requires
        payload.len() + 1 <= max_len,
        message_of(id, payload) == Some(m),
    ensures
        decoded(frame(id, payload) + rest, max_len) == (DecodedModel::Message {
            message: m,
            used: frame(id, payload).len() as int,
        }),
{
    lemma_frame_decodes(id, payload, rest, max_len);
}

/// The payload of an announced piece is read back as it was written.
pub proof fn lemma_have_payload(piece: u32)
    ensures
        message_of(4, be32(piece)) == Some(MessageModel::Have { piece }),
{
    assert(be32(piece).subrange(0, 4) =~= be32(piece));
    lemma_be32_round_trip(piece, be32(piece), 0);
}

/// The payload of a request is read back as it was written.
pub proof fn lemma_request_payload(piece: u32, offset: u32, length: u32)
    ensures
        message_of(6, be32(piece) + be32(offset) + be32(length)) == Some(
            MessageModel::Request { piece, offset, length },
        ),
        message_of(8, be32(piece) + be32(offset) + be32(length)) == Some(
            MessageModel::Cancel { piece, offset, length },
        ),
{
    lemma_three_numbers(piece, offset, length);
}

/// A message without payload is read back as it was sent.
pub proof fn lemma_decode_bare(m: MessageModel, rest: Seq<u8>, max_len: u32)
    requires
        m is Choke || m is Unchoke || m is Interested || m is NotInterested,
        1 <= max_len,
    ensures
        decoded(encoded(m) + rest, max_len) == (DecodedModel::Message { message: m, used: 5 }),
        encoded(m).len() == 5,
{
    let id: u8 = if m is Choke {
        0
    } else if m is Unchoke {
        1
    } else if m is Interested {
        2
    } else {
        3
    };
    lemma_frame_message(id, Seq::empty(), m, rest, max_len);
}

/// A keep-alive is read back as it was sent.
pub proof fn lemma_decode_keep_alive(rest: Seq<u8>, max_len: u32)
    ensures
        decoded(encoded(MessageModel::KeepAlive) + rest, max_len) == (DecodedModel::Message {
            message: MessageModel::KeepAlive,
            used: 4,
        }),
        encoded(MessageModel::KeepAlive).len() == 4,
{
    reveal(decoded);
    let buf = encoded(MessageModel::KeepAlive) + rest;
    assert(buf.subrange(0, 4) =~= be32(0));
    lemma_be32_round_trip(0, buf, 0);
}

/// A request, a cancel and an announced piece are read back as they were
/// sent.
pub proof fn lemma_decode_numbers(m: MessageModel, rest: Seq<u8>, max_len: u32)
    requires
        m is Have || m is Request || m is Cancel,
        encoded(m).len() - 4 <= max_len,
    ensures
        decoded(encoded(m) + rest, max_len) == (DecodedModel::Message {
            message: m,
            used: encoded(m).len() as int,
        }),
{
    match m {
        MessageModel::Have { piece } => {
            lemma_have_payload(piece);
            lemma_frame_message(4, be32(piece), m, rest, max_len);
        },
        MessageModel::Request { piece, offset, length } => {
            lemma_request_payload(piece, offset, length);
            lemma_frame_message(6, be32(piece) + be32(offset) + be32(length), m, rest, max_len);
        },
        MessageModel::Cancel { piece, offset, length } => {
            lemma_request_payload(piece, offset, length);
            lemma_frame_message(8, be32(piece) + be32(offset) + be32(length), m, rest, max_len);
        },
        _ => {},
    }
}

/// A bitfield is read back as it was sent.
pub proof fn lemma_decode_bitfield(bits: Seq<u8>, rest: Seq<u8>, max_len: u32)
    requires
        bits.len() + 1 <= max_len,
    ensures
        decoded(frame(5, bits) + rest, max_len) == (DecodedModel::Message {
            message: MessageModel::Bitfield { bits },
            used: frame(5, bits).len() as int,
        }),
{
    lemma_frame_message(5, bits, MessageModel::Bitfield { bits }, rest, max_len);
}

/// A delivered block is read back as it was sent.
pub proof fn lemma_decode_block(
    piece: u32,
    offset: u32,
    block: Seq<u8>,
    rest: Seq<u8>,
    max_len: u32,
)
    requires
        block.len() + 9 <= max_len,
    ensures
        decoded(frame(7, be32(piece) + be32(offset) + block) + rest, max_len) == (
        DecodedModel::Message {
            message: MessageModel::Piece { piece, offset, block },
            used: frame(7, be32(piece) + be32(offset) + block).len() as int,
        }),
{
    lemma_block_payload(piece, offset, block);
    lemma_frame_message(
        7,
        be32(piece) + be32(offset) + block,
        MessageModel::Piece { piece, offset, block },
        rest,
        max_len,
    );
}

/// A bitfield and a delivered block are read back as they were sent.
pub proof fn lemma_decode_bytes(m: MessageModel, rest: Seq<u8>, max_len: u32)
    requires
        m is Bitfield || m is Piece,
        sendable(m),
        encoded(m).len() - 4 <= max_len,
    ensures
        decoded(encoded(m) + rest, max_len) == (DecodedModel::Message {
            message: m,
            used: encoded(m).len() as int,
        }),
{
    match m {
        MessageModel::Bitfield { bits } => {
            assert(encoded(m) == frame(5, bits));
            assert(frame(5, bits).len() == bits.len() + 5);
            lemma_decode_bitfield(bits, rest, max_len);
        },
        MessageModel::Piece { piece, offset, block } => {
            let payload = be32(piece) + be32(offset) + block;
            assert(encoded(m) == frame(7, payload));
            assert(payload.len() == block.len() + 8);
            assert(frame(7, payload).len() == payload.len() + 5);
            lemma_decode_block(piece, offset, block, rest, max_len);
        },
        _ => {},
    }
}

/// A message that can be sent is read back as it was sent, whatever follows
/// it on the stream, where its frame is not longer than the limit.
pub proof fn lemma_decode_encoded(m: MessageModel, rest: Seq<u8>, max_len: u32)
    requires
        sendable(m),
        encoded(m).len() - 4 <= max_len,
    ensures
        decoded(encoded(m) + rest, max_len) == (DecodedModel::Message {
            message: m,
            used: encoded(m).len() as int,
        }),
{
    if m is KeepAlive {
        lemma_decode_keep_alive(rest, max_len);
    } else if m is Choke || m is Unchoke || m is Interested || m is NotInterested {
        assert(encoded(m).len() == 5);
        lemma_decode_bare(m, rest, max_len);
    } else if m is Have || m is Request || m is Cancel {
        lemma_decode_numbers(m, rest, max_len);
    } else if m is Bitfield || m is Piece {
        lemma_decode_bytes(m, rest, max_len);
    }
}

} // verus!
