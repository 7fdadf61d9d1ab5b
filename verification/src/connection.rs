//! One peer connection: its state, and what each message does to it.

use crate::error::EngineError;
use crate::peer::{Handshake, MessageModel, PeerMessage};
use crate::piece::BlockRequest;
use vstd::prelude::*;

verus! {

/// Most requests that a connection has under way at a time.
pub const PIPELINE_DEPTH: usize = 5;

/// Where a connection stands.
#[derive(Clone, Copy, Debug, PartialEq, Eq, Structural)]
pub enum ConnectionPhase {
    Connecting,
    Handshaking,
    Active,
    Closed,
}

/// A request under way: the block, and when it was asked for.
#[derive(Clone, Copy, Debug, PartialEq, Eq, Structural)]
pub struct Pending {
    pub request: BlockRequest,
    pub at: u64,
}

/// What a message means to the rest of the engine.
#[derive(Clone, Copy, Debug, PartialEq, Eq, Structural)]
pub enum ConnectionEvent {
    /// Nothing beyond the connection's own state.
    Nothing,
    /// The peer has announced this piece, which it did not have before.
    PeerHas(u32),
    /// The peer has sent its bitfield.
    PeerBitfield,
    /// The peer has delivered a block: it goes to the piece manager.
    Deliver,
    /// The peer broke the protocol: the connection is closed.
    Violation,
}

/// The weight of bit `k` of a byte, the high bit first.
pub open spec fn bit_weight(k: int) -> int {
    if k == 0 {
        128
    } else if k == 1 {
        64
    } else if k == 2 {
        32
    } else if k == 3 {
        16
    } else if k == 4 {
        8
    } else if k == 5 {
        4
    } else if k == 6 {
        2
    } else {
        1
    }
}

/// Whether bit `i` of a bitfield is set: bit `i % 8` of byte `i / 8`, the
/// high bit first.
pub open spec fn bit_at(bytes: Seq<u8>, i: int) -> bool {
    (bytes[i / 8] as int / bit_weight(i % 8)) % 2 == 1
}

/// Whether `bytes` are the bitfield of a torrent of `n` pieces: just enough
/// bytes, and no bit set beyond the pieces.
pub open spec fn is_bitfield(bytes: Seq<u8>, n: int) -> bool {
    &&& bytes.len() == (n + 7) / 8
    &&& forall|i: int| n <= i < 8 * bytes.len() ==> !#[trigger] bit_at(bytes, i)
}

/// The weight of bit `k` of a byte.
fn weight_of(k: usize) -> (w: u8)
    requires
        k < 8,
    ensures
        w == bit_weight(k as int),
{
    if k == 0 {
        128
    } else if k == 1 {
        64
    } else if k == 2 {
        32
    } else if k == 3 {
        16
    } else if k == 4 {
        8
    } else if k == 5 {
        4
    } else if k == 6 {
        2
    } else {
        1
    }
}

/// Reads the bitfield of a torrent of `n` pieces: one entry per piece.
/// `None` where the bytes are not such a bitfield.
pub fn parse_bitfield(bytes: &[u8], n: usize) -> (out: Option<Vec<bool>>)
    ensures
        out is Some <==> is_bitfield(bytes@, n as int),
        out matches Some(bits) ==> bits@.len() == n && forall|i: int|
            0 <= i < n ==> #[trigger] bits@[i] == bit_at(bytes@, i),
{
    let size = bytes.len();
    if size != n / 8 + (if n % 8 == 0 {
        0
    } else {
        1
    }) {
        return None;
    }
    let mut bits: Vec<bool> = Vec::new();
    let mut i: usize = 0;
    while i < n
        invariant
            i <= n,
            size == bytes@.len(),
            size == (n + 7) / 8,
            bits@.len() == i,
            forall|k: int| 0 <= k < i ==> #[trigger] bits@[k] == bit_at(bytes@, k),
        decreases n - i,
    {
        bits.push((bytes[i / 8] / weight_of(i % 8)) % 2 == 1);
        i += 1;
    }
    let spare: usize = if n % 8 == 0 {
        0
    } else {
        8 - n % 8
    };
    let mut k: usize = 0;
    while k < spare
        invariant
            k <= spare,
            spare < 8,
            n + spare == 8 * size,
            size == bytes@.len(),
            forall|j: int| n <= j < n + k ==> !#[trigger] bit_at(bytes@, j),
        decreases spare - k,
    {
        let j: usize = n + k;
        if (bytes[j / 8] / weight_of(j % 8)) % 2 == 1 {
            assert(bit_at(bytes@, j as int));
            return None;
        }
        k += 1;
    }
    Some(bits)
}

/// The mathematical content of a `PeerConnection`.
pub struct ConnectionModel {
    pub phase: ConnectionPhase,
    pub handshake_verified: bool,
    pub am_choking: bool,
    pub am_interested: bool,
    pub peer_choking: bool,
    pub peer_interested: bool,
    /// Whether no message has arrived since the handshake.
    pub fresh: bool,
    pub bitfield: Seq<bool>,
    pub outstanding: Seq<Pending>,
}

/// The place of the first request for the block at `offset` of `piece` with
/// `length` bytes at or after `from`, or the number of requests.
pub open spec fn request_index(
    outstanding: Seq<Pending>,
    piece: u32,
    offset: u32,
    length: int,
    from: int,
) -> int
    decreases outstanding.len() - from,
{
    if from >= outstanding.len() {
        outstanding.len() as int
    } else if from >= 0 && outstanding[from].request.piece == piece
        && outstanding[from].request.offset == offset && outstanding[from].request.length
        == length {
        from
    } else {
        request_index(outstanding, piece, offset, length, from + 1)
    }
}

/// Whether a request was sent more than `timeout` before `now`.
pub open spec fn overdue(pending: Pending, now: u64, timeout: u64) -> bool {
    pending.at + timeout < now
}

/// The first `n` requests without the overdue ones, in their order.
pub open spec fn kept(outstanding: Seq<Pending>, now: u64, timeout: u64, n: int) -> Seq<Pending>
    decreases n,
{
    if n <= 0 {
        Seq::empty()
    } else if overdue(outstanding[n - 1], now, timeout) {
        kept(outstanding, now, timeout, n - 1)
    } else {
        kept(outstanding, now, timeout, n - 1).push(outstanding[n - 1])
    }
}

/// No more requests are kept than there were.
pub proof fn lemma_kept_len(outstanding: Seq<Pending>, now: u64, timeout: u64, n: int)
    requires
        0 <= n <= outstanding.len(),
    ensures
        kept(outstanding, now, timeout, n).len() <= n,
    decreases n,
{
    if n > 0 {
        lemma_kept_len(outstanding, now, timeout, n - 1);
    }
}

/// The blocks of a list of requests under way.
pub open spec fn blocks_of(outstanding: Seq<Pending>) -> Seq<BlockRequest> {
    Seq::new(outstanding.len(), |i: int| outstanding[i].request)
}

impl ConnectionModel {
    /// The invariant of a connection: one bitfield entry per piece, a
    /// bounded number of requests under way, and none but while active.
    pub open spec fn wf(self) -> bool {
        &&& self.outstanding.len() <= PIPELINE_DEPTH
        &&& !(self.phase is Active) ==> self.outstanding.len() == 0
        &&& self.handshake_verified == (self.phase is Active)
    }

    /// A connection that is being opened to a peer of a torrent of `n`
    /// pieces.
    pub open spec fn connecting(n: nat) -> ConnectionModel {
        ConnectionModel {
            phase: ConnectionPhase::Connecting,
            handshake_verified: false,
            am_choking: true,
            am_interested: false,
            peer_choking: true,
            peer_interested: false,
            fresh: false,
            bitfield: Seq::new(n, |i: int| false),
            outstanding: Seq::empty(),
        }
    }

    /// The connection closed: no request is under way any more.
    pub open spec fn closed(self) -> ConnectionModel {
        ConnectionModel {
            phase: ConnectionPhase::Closed,
            handshake_verified: false,
            fresh: false,
            outstanding: Seq::empty(),
            ..self
        }
    }

    /// Whether a block can be requested: the connection is active, the peer
    /// does not choke, and the pipeline has room.
    pub open spec fn can_request(self) -> bool {
        self.phase is Active && !self.peer_choking && self.outstanding.len() < PIPELINE_DEPTH
    }

    /// Whether message `m` breaks the protocol here: a `have` for a piece
    /// that does not exist, a bitfield that is not the first message after
    /// the handshake, or one that is not a bitfield of this torrent.
    pub open spec fn violates(self, m: MessageModel) -> bool {
        match m {
            MessageModel::Have { piece } => piece >= self.bitfield.len(),
            MessageModel::Bitfield { bits } => !self.fresh || !is_bitfield(
                bits,
                self.bitfield.len() as int,
            ),
            _ => false,
        }
    }

    /// The connection after message `m` has arrived while it is active.
    pub open spec fn after_message(self, m: MessageModel) -> ConnectionModel {
        if !(self.phase is Active) {
            self
        } else if self.violates(m) {
            self.closed()
        } else {
            let seen = ConnectionModel { fresh: false, ..self };
            match m {
                MessageModel::Choke => ConnectionModel { peer_choking: true, ..seen },
                MessageModel::Unchoke => ConnectionModel { peer_choking: false, ..seen },
                MessageModel::Interested => ConnectionModel { peer_interested: true, ..seen },
                MessageModel::NotInterested => ConnectionModel { peer_interested: false, ..seen },
                MessageModel::Have { piece } => ConnectionModel {
                    bitfield: self.bitfield.update(piece as int, true),
                    ..seen
                },
                MessageModel::Bitfield { bits } => ConnectionModel {
                    bitfield: Seq::new(self.bitfield.len(), |i: int| bit_at(bits, i)),
                    ..seen
                },
                MessageModel::Piece { piece, offset, block } => {
                    let at = request_index(
                        self.outstanding,
                        piece,
                        offset,
                        block.len() as int,
                        0,
                    );
                    if at < self.outstanding.len() {
                        ConnectionModel { outstanding: self.outstanding.remove(at), ..seen }
                    } else {
                        seen
                    }
                },
                _ => seen,
            }
        }
    }

    /// What message `m` means to the rest of the engine.
    pub open spec fn message_event(self, m: MessageModel) -> ConnectionEvent {
        if !(self.phase is Active) {
            ConnectionEvent::Nothing
        } else if self.violates(m) {
            ConnectionEvent::Violation
        } else {
            match m {
                MessageModel::Have { piece } => if self.bitfield[piece as int] {
                    ConnectionEvent::Nothing
                } else {
                    ConnectionEvent::PeerHas(piece)
                },
                MessageModel::Bitfield { bits } => ConnectionEvent::PeerBitfield,
                MessageModel::Piece { piece, offset, block } => ConnectionEvent::Deliver,
                _ => ConnectionEvent::Nothing,
            }
        }
    }
}

/// The state of one peer connection.
pub struct PeerConnection {
    phase: ConnectionPhase,
    handshake_verified: bool,
    am_choking: bool,
    am_interested: bool,
    peer_choking: bool,
    peer_interested: bool,
    fresh: bool,
    bitfield: Vec<bool>,
    outstanding: Vec<Pending>,
}

impl View for PeerConnection {
    type V = ConnectionModel;

    closed spec fn view(&self) -> ConnectionModel {
        ConnectionModel {
            phase: self.phase,
            handshake_verified: self.handshake_verified,
            am_choking: self.am_choking,
            am_interested: self.am_interested,
            peer_choking: self.peer_choking,
            peer_interested: self.peer_interested,
            fresh: self.fresh,
            bitfield: self.bitfield@,
            outstanding: self.outstanding@,
        }
    }
}

impl PeerConnection {
    /// The invariant of the connection.
    pub open spec fn wf(&self) -> bool {
        self@.wf()
    }

    /// A connection that is being opened to a peer of a torrent of
    /// `piece_count` pieces.
    pub fn new(piece_count: usize) -> (c: Self)
        ensures
            c.wf(),
            c@ == ConnectionModel::connecting(piece_count as nat),
    {
        let mut bitfield: Vec<bool> = Vec::new();
        let mut i: usize = 0;
        while i < piece_count
            invariant
                i <= piece_count,
                bitfield@ == Seq::new(i as nat, |k: int| false),
            decreases piece_count - i,
        {
            bitfield.push(false);
            i += 1;
            assert(bitfield@ =~= Seq::new(i as nat, |k: int| false));
        }
        PeerConnection {
            phase: ConnectionPhase::Connecting,
            handshake_verified: false,
            am_choking: true,
            am_interested: false,
            peer_choking: true,
            peer_interested: false,
            fresh: false,
            bitfield,
            outstanding: Vec::new(),
        }
    }

    /// Records that the stream is open and the handshake was sent.
    pub fn handshake_sent(&mut self)
        requires
            old(self).wf(),
        ensures
            final(self).wf(),
            final(self)@ == (if old(self)@.phase is Connecting {
                ConnectionModel { phase: ConnectionPhase::Handshaking, ..old(self)@ }
            } else {
                old(self)@
            }),
    {
        match self.phase {
            ConnectionPhase::Connecting => {
                self.phase = ConnectionPhase::Handshaking;
            },
            _ => {},
        }
    }

    /// Takes the handshake that the peer sent back to `ours`. Where it
    /// names our torrent the connection becomes active, both sides choking
    /// and not interested; else it is closed, for a mismatch or for a broken
    /// protocol.
    pub fn on_handshake(&mut self, ours: &Handshake, reply: &[u8]) -> (out: Result<(), EngineError>)
        requires
            old(self).wf(),
            old(self)@.phase is Handshaking,
        ensures
            final(self).wf(),
            out is Ok <==> crate::peer::is_handshake(reply@) && reply@.subrange(28, 48)
                == ours.info_hash@,
            out matches Err(e) ==> e == (if crate::peer::is_handshake(reply@) {
                EngineError::HandshakeMismatch
            } else {
                EngineError::ProtocolViolation
            }),
            final(self)@ == (if out is Ok {
                ConnectionModel {
                    phase: ConnectionPhase::Active,
                    handshake_verified: true,
                    am_choking: true,
                    am_interested: false,
                    peer_choking: true,
                    peer_interested: false,
                    fresh: true,
                    ..old(self)@
                }
            } else {
                old(self)@.closed()
            }),
    {
        match ours.check_reply(reply) {
            Ok(theirs) => {
                assert(theirs.info_hash@ =~= reply@.subrange(28, 48)) by {
                    assert forall|k: int| 0 <= k < 20 implies theirs.info_hash@[k] == reply@[28
                        + k] by {
                        assert(crate::peer::handshake_bytes(theirs)[28 + k]
                            == theirs.info_hash@[k]);
                    }
                }
                self.phase = ConnectionPhase::Active;
                self.handshake_verified = true;
                self.am_choking = true;
                self.am_interested = false;
                self.peer_choking = true;
                self.peer_interested = false;
                self.fresh = true;
                Ok(())
            },
            Err(e) => {
                self.close_now();
                Err(e)
            },
        }
    }

    /// Takes a message from the peer. Choke and interest update the flags; a
    /// `have` or a bitfield updates what the peer is known to hold; a
    /// delivered block takes its request out of the pipeline; requests and
    /// cancels of the peer are not served; keep-alives and messages of an
    /// unknown id change nothing. A `have` for a piece that does not exist
    /// or an ill-formed bitfield closes the connection.
    pub fn on_message(&mut self, message: &PeerMessage) -> (event: ConnectionEvent)
        requires
            old(self).wf(),
        ensures
            final(self).wf(),
            final(self)@ == old(self)@.after_message(message@),
            event == old(self)@.message_event(message@),
    {
        match self.phase {
            ConnectionPhase::Active => {},
            _ => {
                return ConnectionEvent::Nothing;
            },
        }
        let fresh = self.fresh;
        self.fresh = false;
        match message {
            PeerMessage::Choke => {
                self.peer_choking = true;
                ConnectionEvent::Nothing
            },
            PeerMessage::Unchoke => {
                self.peer_choking = false;
                ConnectionEvent::Nothing
            },
            PeerMessage::Interested => {
                self.peer_interested = true;
                ConnectionEvent::Nothing
            },
            PeerMessage::NotInterested => {
                self.peer_interested = false;
                ConnectionEvent::Nothing
            },
            PeerMessage::Have { piece } => {
                let p = *piece as usize;
                if p >= self.bitfield.len() {
                    self.close_now();
                    ConnectionEvent::Violation
                } else if self.bitfield[p] {
                    assert(self.bitfield@.update(p as int, true) =~= self.bitfield@);
                    ConnectionEvent::Nothing
                } else {
                    self.bitfield[p] = true;
                    ConnectionEvent::PeerHas(*piece)
                }
            },
            PeerMessage::Bitfield { bits } => {
                if !fresh {
                    self.close_now();
                    return ConnectionEvent::Violation;
                }
                match parse_bitfield(bits.as_slice(), self.bitfield.len()) {
                    Some(parsed) => {
                        assert(parsed@ =~= Seq::new(
                            self.bitfield@.len(),
                            |i: int| bit_at(bits@, i),
                        ));
                        self.bitfield = parsed;
                        ConnectionEvent::PeerBitfield
                    },
                    None => {
                        self.close_now();
                        ConnectionEvent::Violation
                    },
                }
            },
            PeerMessage::Piece { piece, offset, block } => {
                let mut at: usize = 0;
                while at < self.outstanding.len() && !(self.outstanding[at].request.piece
                    == *piece && self.outstanding[at].request.offset == *offset
                    && self.outstanding[at].request.length as usize == block.len())
                    invariant
                        at <= self.outstanding@.len(),
                        self@ == (ConnectionModel { fresh: false, ..old(self)@ }),
                        request_index(self.outstanding@, *piece, *offset, block@.len() as int, 0)
                            == request_index(
                            self.outstanding@,
                            *piece,
                            *offset,
                            block@.len() as int,
                            at as int,
                        ),
                    decreases self.outstanding@.len() - at,
                {
                    at += 1;
                }
                if at < self.outstanding.len() {
                    self.outstanding.remove(at);
                }
                ConnectionEvent::Deliver
            },
            _ => ConnectionEvent::Nothing,
        }
    }

    /// Closes the connection where it stands.
    fn close_now(&mut self)
        ensures
            final(self)@ == old(self)@.closed(),
    {
        self.phase = ConnectionPhase::Closed;
        self.handshake_verified = false;
        self.fresh = false;
        self.outstanding = Vec::new();
    }

    /// Whether a block can be requested from the peer now.
    pub fn can_request(&self) -> (can: bool)
        ensures
            can == self@.can_request(),
    {
        match self.phase {
            ConnectionPhase::Active => !self.peer_choking && self.outstanding.len()
                < PIPELINE_DEPTH,
            _ => false,
        }
    }

    /// Records a request that was sent to the peer at time `now`.
    pub fn request_sent(&mut self, request: BlockRequest, now: u64)
        requires
            old(self).wf(),
            old(self)@.can_request(),
        ensures
            final(self).wf(),
            final(self)@ == (ConnectionModel {
                outstanding: old(self)@.outstanding.push(Pending { request, at: now }),
                ..old(self)@
            }),
    {
        self.outstanding.push(Pending { request, at: now });
    }

    /// Takes the requests sent more than `timeout` before `now` out of the
    /// pipeline: their blocks count as lost, though the connection stays
    /// open, and the pipeline has room for others.
    pub fn expire(&mut self, now: u64, timeout: u64)
        requires
            old(self).wf(),
        ensures
            final(self).wf(),
            final(self)@ == (ConnectionModel {
                outstanding: kept(
                    old(self)@.outstanding,
                    now,
                    timeout,
                    old(self)@.outstanding.len() as int,
                ),
                ..old(self)@
            }),
    {
        let mut rest: Vec<Pending> = Vec::new();
        let mut i: usize = 0;
        while i < self.outstanding.len()
            invariant
                i <= self.outstanding@.len(),
                self@ == old(self)@,
                rest@ == kept(self.outstanding@, now, timeout, i as int),
            decreases self.outstanding@.len() - i,
        {
            let pending = self.outstanding[i];
            if !(now > timeout && pending.at < now - timeout) {
                rest.push(pending);
            }
            i += 1;
        }
        proof {
            lemma_kept_len(self.outstanding@, now, timeout, self.outstanding@.len() as int);
        }
        self.outstanding = rest;
    }

    /// Records whether this side is interested in the peer's pieces.
    pub fn set_interested(&mut self, interested: bool)
        ensures
            final(self)@ == (ConnectionModel { am_interested: interested, ..old(self)@ }),
    {
        self.am_interested = interested;
    }

    /// Closes the connection, after an I/O error, a broken protocol or at
    /// the end of the download, and hands out the requests that were under
    /// way: they are to be released to the piece manager.
    pub fn close(&mut self) -> (lost: Vec<BlockRequest>)
        requires
            old(self).wf(),
        ensures
            final(self).wf(),
            final(self)@ == old(self)@.closed(),
            lost@ == blocks_of(old(self)@.outstanding),
    {
        let mut lost: Vec<BlockRequest> = Vec::new();
        let mut i: usize = 0;
        while i < self.outstanding.len()
            invariant
                i <= self.outstanding@.len(),
                self@ == old(self)@,
                lost@ == blocks_of(self.outstanding@.subrange(0, i as int)),
            decreases self.outstanding@.len() - i,
        {
            lost.push(self.outstanding[i].request);
            i += 1;
            assert(lost@ =~= blocks_of(self.outstanding@.subrange(0, i as int)));
        }
        assert(self.outstanding@.subrange(0, self.outstanding@.len() as int)
            =~= self.outstanding@);
        self.close_now();
        lost
    }

    /// Where the connection stands.
    pub fn phase(&self) -> (phase: ConnectionPhase)
        ensures
            phase == self@.phase,
    {
        self.phase
    }

    /// What the peer is known to hold, one entry per piece.
    pub fn bitfield(&self) -> (bits: &Vec<bool>)
        ensures
            bits@ == self@.bitfield,
    {
        &self.bitfield
    }

    /// The requests under way.
    pub fn outstanding(&self) -> (requests: &Vec<Pending>)
        ensures
            requests@ == self@.outstanding,
    {
        &self.outstanding
    }

    /// Whether the peer chokes this side.
    pub fn peer_choking(&self) -> (choking: bool)
        ensures
            choking == self@.peer_choking,
    {
        self.peer_choking
    }
}

} // verus!
