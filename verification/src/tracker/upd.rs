//! The UDP announce: its packets and its retry schedule.

use crate::peer::{be32, from_be32, push_be32, read_be32};
use crate::tracker::http::{is_compact_entry, parse_compact_peers, HttpTrackerResponse};
use crate::tracker::{AnnounceEvent, AnnounceStats};
use vstd::prelude::*;

verus! {

/// The number that opens a connect request.
pub const PROTOCOL_MAGIC: u64 = 0x417_2710_1980;

/// The action of a connect request and its response.
pub const ACTION_CONNECT: u32 = 0;

/// The action of an announce request and its response.
pub const ACTION_ANNOUNCE: u32 = 1;

/// Seconds to wait for the answer to the first attempt.
pub const FIRST_TIMEOUT: u64 = 15;

/// Most seconds to wait for an answer.
pub const LONGEST_TIMEOUT: u64 = 3600;

/// Attempts after which a URL is given up.
pub const MAX_ATTEMPTS: u32 = 8;

/// The eight bytes of `x`, big end first.
pub open spec fn be64(x: u64) -> Seq<u8> {
    be32((x / 0x1_0000_0000) as u32) + be32((x % 0x1_0000_0000) as u32)
}

/// The number that the eight bytes of `bytes` from `at` on stand for, big
/// end first.
pub open spec fn from_be64(bytes: Seq<u8>, at: int) -> int {
    from_be32(bytes, at) * 0x1_0000_0000 + from_be32(bytes, at + 4)
}

/// Appends the eight bytes of `x`, big end first.
pub fn push_be64(out: &mut Vec<u8>, x: u64)
    ensures
        final(out)@ == old(out)@ + be64(x),
{
    push_be32(out, (x / 0x1_0000_0000) as u32);
    push_be32(out, (x % 0x1_0000_0000) as u32);
    assert(final(out)@ =~= old(out)@ + be64(x));
}

/// Reads eight bytes from `at` on as a number, big end first.
pub fn read_be64(bytes: &[u8], at: usize) -> (x: u64)
    requires
        at + 8 <= bytes.len(),
    ensures
        x == from_be64(bytes@, at as int),
{
    (read_be32(bytes, at) as u64) * 0x1_0000_0000 + read_be32(bytes, at + 4) as u64
}

/// `2` to the power `n`.
pub open spec fn pow2(n: nat) -> nat
    decreases n,
{
    if n == 0 {
        1
    } else {
        2 * pow2((n - 1) as nat)
    }
}

/// Seconds to wait for the answer to attempt number `attempt`, counted from
/// zero: fifteen seconds, doubled with each attempt, an hour at most. `None`
/// once the attempts are used up: the URL has failed.
pub open spec fn timeout_of(attempt: u32) -> Option<u64> {
    if attempt >= MAX_ATTEMPTS {
        None
    } else if FIRST_TIMEOUT * pow2(attempt as nat) > LONGEST_TIMEOUT {
        Some(LONGEST_TIMEOUT)
    } else {
        Some((FIRST_TIMEOUT * pow2(attempt as nat)) as u64)
    }
}

/// The number that stands for an event in an announce request.
pub open spec fn event_code(event: AnnounceEvent) -> u32 {
    match event {
        AnnounceEvent::Periodic => 0,
        AnnounceEvent::Completed => 1,
        AnnounceEvent::Started => 2,
        AnnounceEvent::Stopped => 3,
    }
}

/// The sixteen bytes of a connect request.
pub open spec fn connect_bytes(transaction_id: u32) -> Seq<u8> {
    be64(PROTOCOL_MAGIC) + be32(ACTION_CONNECT) + be32(transaction_id)
}

/// The two bytes of `x`, big end first.
pub open spec fn be16(x: u16) -> Seq<u8> {
    seq![(x / 256) as u8, (x % 256) as u8]
}

/// The ninety-eight bytes of an announce request: the connection id, the
/// action, the transaction id, the info hash, the peer id, the bytes
/// downloaded, left and uploaded, the event, no address, the key, as many
/// peers as the tracker likes, and the port.
pub open spec fn announce_bytes(
    connection_id: u64,
    transaction_id: u32,
    info_hash: Seq<u8>,
    peer_id: Seq<u8>,
    stats: AnnounceStats,
    key: u32,
    port: u16,
) -> Seq<u8> {
    be64(connection_id) + be32(ACTION_ANNOUNCE) + be32(transaction_id) + info_hash + peer_id
        + be64(stats.downloaded) + be64(stats.left) + be64(stats.uploaded) + be32(
        event_code(stats.event),
    ) + be32(0) + be32(key) + be32(0xffff_ffff) + be16(port)
}

/// Whether `bytes` answer the connect request of `transaction_id`.
pub open spec fn is_connect_response(bytes: Seq<u8>, transaction_id: u32) -> bool {
    bytes.len() >= 16 && from_be32(bytes, 0) == ACTION_CONNECT && from_be32(bytes, 4)
        == transaction_id
}

/// Whether `bytes` answer the announce request of `transaction_id`.
pub open spec fn is_announce_response(bytes: Seq<u8>, transaction_id: u32) -> bool {
    bytes.len() >= 20 && from_be32(bytes, 0) == ACTION_ANNOUNCE && from_be32(bytes, 4)
        == transaction_id && (bytes.len() - 20) % 6 == 0
}

/// Whether `r` is what the announce response `bytes` says: the interval,
/// the numbers of leechers and seeders, and the peers, six bytes each.
pub open spec fn is_response_of(bytes: Seq<u8>, r: HttpTrackerResponse) -> bool {
    &&& r.interval == Some(from_be32(bytes, 8) as u64)
    &&& r.min_interval is None
    &&& r.incomplete == Some(from_be32(bytes, 12) as u64)
    &&& r.complete == Some(from_be32(bytes, 16) as u64)
    &&& r.downloaded is None
    &&& r.peers matches Some(peers) && peers@.len() == (bytes.len() - 20) / 6 && forall|i: int|
        0 <= i < peers@.len() ==> is_compact_entry(
            bytes.subrange(20, bytes.len() as int),
            i,
            #[trigger] peers@[i],
        )
}

/// What a UDP announce tells the tracker.
#[derive(Clone, Debug)]
pub struct UdpAnnounce {
    pub info_hash: Vec<u8>,
    pub peer_id: Vec<u8>,
    pub stats: AnnounceStats,
    pub key: u32,
    pub port: u16,
}

/// Where a UDP announce stands.
#[derive(Clone, Copy, Debug, PartialEq, Eq, Structural)]
pub enum UdpPhase {
    /// Nothing was sent yet.
    Idle,
    /// The connect request was sent.
    Connecting,
    /// The announce request was sent on this connection.
    Announcing { connection_id: u64 },
    /// The tracker has answered the announce.
    Done,
    /// The attempts are used up: this URL has failed.
    Failed,
}

/// What is to be done next in a UDP announce.
#[derive(Clone, Debug)]
pub enum UdpAction {
    /// Send this packet and wait this many seconds for the answer.
    Send { packet: Vec<u8>, timeout: u64 },
    /// The tracker has answered with this response.
    Finish(HttpTrackerResponse),
    /// The URL has failed.
    Fail,
    /// Nothing changed: go on waiting, if an answer is awaited.
    Ignore,
}

/// The mathematical content of a `UDPTracker`.
pub struct UdpModel {
    pub info_hash: Seq<u8>,
    pub peer_id: Seq<u8>,
    pub stats: AnnounceStats,
    pub key: u32,
    pub port: u16,
    pub phase: UdpPhase,
    pub attempt: u32,
    pub transaction_id: u32,
}

impl UdpModel {
    /// The invariant of a UDP announce: while an answer is awaited, an
    /// attempt is left.
    pub open spec fn wf(self) -> bool {
        (self.phase is Connecting || self.phase is Announcing) ==> self.attempt < MAX_ATTEMPTS
    }

    /// Whether an answer is awaited.
    pub open spec fn waits(self) -> bool {
        self.phase is Connecting || self.phase is Announcing
    }

    /// The announce request on connection `connection_id` in transaction
    /// `transaction_id`.
    pub open spec fn request(self, connection_id: u64, transaction_id: u32) -> Seq<u8> {
        announce_bytes(
            connection_id,
            transaction_id,
            self.info_hash,
            self.peer_id,
            self.stats,
            self.key,
            self.port,
        )
    }

    /// The announce after its start in transaction `transaction_id`.
    pub open spec fn started(self, transaction_id: u32) -> UdpModel {
        if self.phase is Idle && self.attempt < MAX_ATTEMPTS {
            UdpModel { phase: UdpPhase::Connecting, transaction_id, ..self }
        } else {
            self
        }
    }

    /// Whether `bytes` are the answer that is awaited.
    pub open spec fn answers(self, bytes: Seq<u8>) -> bool {
        match self.phase {
            UdpPhase::Connecting => is_connect_response(bytes, self.transaction_id),
            UdpPhase::Announcing { connection_id } => is_announce_response(
                bytes,
                self.transaction_id,
            ),
            _ => false,
        }
    }

    /// The announce after the datagram `bytes` has arrived; `next_id` is the
    /// transaction id of the request that is sent next, if one is. A
    /// datagram that is not the answer awaited changes nothing.
    pub open spec fn after_datagram(self, bytes: Seq<u8>, next_id: u32) -> UdpModel {
        if !self.answers(bytes) {
            self
        } else if self.phase is Connecting {
            UdpModel {
                phase: UdpPhase::Announcing { connection_id: from_be64(bytes, 8) as u64 },
                transaction_id: next_id,
                ..self
            }
        } else {
            UdpModel { phase: UdpPhase::Done, ..self }
        }
    }

    /// The announce after the answer awaited did not come in time: the next
    /// attempt starts over with a connect request in transaction `next_id`,
    /// or the URL has failed where no attempt is left.
    pub open spec fn after_timeout(self, next_id: u32) -> UdpModel {
        if !self.waits() {
            self
        } else if self.attempt + 1 >= MAX_ATTEMPTS {
            UdpModel { phase: UdpPhase::Failed, attempt: MAX_ATTEMPTS, ..self }
        } else {
            UdpModel {
                phase: UdpPhase::Connecting,
                attempt: (self.attempt + 1) as u32,
                transaction_id: next_id,
                ..self
            }
        }
    }
}

/// The UDP announce to one tracker: the exchange of connect and announce,
/// with its retries.
pub struct UDPTracker {
    announce: UdpAnnounce,
    phase: UdpPhase,
    attempt: u32,
    transaction_id: u32,
}

impl View for UDPTracker {
    type V = UdpModel;

    closed spec fn view(&self) -> UdpModel {
        UdpModel {
            info_hash: self.announce.info_hash@,
            peer_id: self.announce.peer_id@,
            stats: self.announce.stats,
            key: self.announce.key,
            port: self.announce.port,
            phase: self.phase,
            attempt: self.attempt,
            transaction_id: self.transaction_id,
        }
    }
}

/// Seconds to wait for the answer to attempt number `attempt`.
fn timeout_for(attempt: u32) -> (secs: Option<u64>)
    ensures
        secs == timeout_of(attempt),
{
    if attempt >= MAX_ATTEMPTS {
        return None;
    }
    let mut secs: u64 = FIRST_TIMEOUT;
    let mut i: u32 = 0;
    while i < attempt
        invariant
            i <= attempt < MAX_ATTEMPTS,
            secs == FIRST_TIMEOUT * pow2(i as nat),
            secs <= FIRST_TIMEOUT * 128,
            pow2(i as nat) <= 128,
        decreases attempt - i,
    {
        reveal_with_fuel(pow2, 9);
        secs = secs * 2;
        i += 1;
    }
    if secs > LONGEST_TIMEOUT {
        Some(LONGEST_TIMEOUT)
    } else {
        Some(secs)
    }
}

impl UDPTracker {
    /// The invariant of the announce.
    pub open spec fn wf(&self) -> bool {
        self@.wf()
    }

    /// An announce that was not tried yet.
    pub fn new(announce: UdpAnnounce) -> (tracker: Self)
        ensures
            tracker.wf(),
            tracker@ == (UdpModel {
                info_hash: announce.info_hash@,
                peer_id: announce.peer_id@,
                stats: announce.stats,
                key: announce.key,
                port: announce.port,
                phase: UdpPhase::Idle,
                attempt: 0,
                transaction_id: 0,
            }),
    {
        UDPTracker { announce, phase: UdpPhase::Idle, attempt: 0, transaction_id: 0 }
    }

    /// Where the announce stands.
    pub fn phase(&self) -> (phase: UdpPhase)
        ensures
            phase == self@.phase,
    {
        self.phase
    }

    /// Seconds to wait for the answer to the attempt that is due, or `None`
    /// where the attempts are used up.
    pub fn timeout(&self) -> (secs: Option<u64>)
        ensures
            secs == timeout_of(self@.attempt),
    {
        timeout_for(self.attempt)
    }

    /// Starts the announce with a connect request in transaction
    /// `transaction_id`.
    pub fn start(&mut self, transaction_id: u32) -> (action: UdpAction)
        requires
            old(self).wf(),
        ensures
            final(self).wf(),
            final(self)@ == old(self)@.started(transaction_id),
            match action {
                UdpAction::Send { packet, timeout } => old(self)@.phase is Idle && packet@
                    == connect_bytes(transaction_id) && Some(timeout) == timeout_of(
                    old(self)@.attempt,
                ),
                UdpAction::Ignore => final(self)@ == old(self)@,
                _ => false,
            },
    {
        match self.phase {
            UdpPhase::Idle => match timeout_for(self.attempt) {
                Some(timeout) => {
                    self.phase = UdpPhase::Connecting;
                    self.transaction_id = transaction_id;
                    UdpAction::Send { packet: Self::connect_request(transaction_id), timeout }
                },
                None => UdpAction::Ignore,
            },
            _ => UdpAction::Ignore,
        }
    }

    /// Takes a datagram from the tracker. The answer to the connect request
    /// is followed by the announce request, in transaction `next_id`; the
    /// answer to the announce request ends the exchange with its response.
    /// Any other datagram is ignored.
    pub fn on_datagram(&mut self, bytes: &[u8], next_id: u32) -> (action: UdpAction)
        requires
            old(self).wf(),
        ensures
            final(self).wf(),
            final(self)@ == old(self)@.after_datagram(bytes@, next_id),
            match action {
                UdpAction::Send { packet, timeout } => old(self)@.phase is Connecting && old(
                    self,
                )@.answers(bytes@) && packet@ == old(self)@.request(
                    from_be64(bytes@, 8) as u64,
                    next_id,
                ) && Some(timeout) == timeout_of(old(self)@.attempt),
                UdpAction::Finish(r) => old(self)@.phase is Announcing && old(self)@.answers(
                    bytes@,
                ) && is_response_of(bytes@, r),
                UdpAction::Ignore => !old(self)@.answers(bytes@),
                UdpAction::Fail => false,
            },
    {
        match self.phase {
            UdpPhase::Connecting => {
                match Self::parse_connect_response(bytes, self.transaction_id) {
                    Some(connection_id) => match timeout_for(self.attempt) {
                        Some(timeout) => {
                            self.phase = UdpPhase::Announcing { connection_id };
                            self.transaction_id = next_id;
                            let packet = Self::announce_request(
                                connection_id,
                                next_id,
                                self.announce.info_hash.as_slice(),
                                self.announce.peer_id.as_slice(),
                                &self.announce.stats,
                                self.announce.key,
                                self.announce.port,
                            );
                            UdpAction::Send { packet, timeout }
                        },
                        None => UdpAction::Ignore,
                    },
                    None => UdpAction::Ignore,
                }
            },
            UdpPhase::Announcing { .. } => {
                match Self::parse_announce_response(bytes, self.transaction_id) {
                    Some(response) => {
                        self.phase = UdpPhase::Done;
                        UdpAction::Finish(response)
                    },
                    None => UdpAction::Ignore,
                }
            },
            _ => UdpAction::Ignore,
        }
    }

    /// Records that the answer awaited did not come in time. The exchange
    /// starts over with a connect request in transaction `next_id` and the
    /// next, longer timeout; once the attempts are used up the URL has
    /// failed.
    pub fn on_timeout(&mut self, next_id: u32) -> (action: UdpAction)
        requires
            old(self).wf(),
        ensures
            final(self).wf(),
            final(self)@ == old(self)@.after_timeout(next_id),
            match action {
                UdpAction::Send { packet, timeout } => old(self)@.waits() && packet@
                    == connect_bytes(next_id) && Some(timeout) == timeout_of(
                    (old(self)@.attempt + 1) as u32,
                ),
                UdpAction::Fail => old(self)@.waits() && old(self)@.attempt + 1 >= MAX_ATTEMPTS,
                UdpAction::Ignore => !old(self)@.waits(),
                UdpAction::Finish(r) => false,
            },
    {
        match self.phase {
            UdpPhase::Connecting => {},
            UdpPhase::Announcing { .. } => {},
            _ => {
                return UdpAction::Ignore;
            },
        }
        match timeout_for(self.attempt + 1) {
            Some(timeout) => {
                self.attempt = self.attempt + 1;
                self.phase = UdpPhase::Connecting;
                self.transaction_id = next_id;
                UdpAction::Send { packet: Self::connect_request(next_id), timeout }
            },
            None => {
                self.attempt = MAX_ATTEMPTS;
                self.phase = UdpPhase::Failed;
                UdpAction::Fail
            },
        }
    }

    /// The connect request of a transaction.
    pub fn connect_request(transaction_id: u32) -> (bytes: Vec<u8>)
        ensures
            bytes@ == connect_bytes(transaction_id),
    {
        let mut bytes: Vec<u8> = Vec::new();
        push_be64(&mut bytes, PROTOCOL_MAGIC);
        push_be32(&mut bytes, ACTION_CONNECT);
        push_be32(&mut bytes, transaction_id);
        assert(bytes@ =~= connect_bytes(transaction_id));
        bytes
    }

    /// Reads the answer to a connect request: the connection id, or `None`
    /// where the bytes do not answer the request of `transaction_id`.
    pub fn parse_connect_response(bytes: &[u8], transaction_id: u32) -> (out: Option<u64>)
        ensures
            out is Some <==> is_connect_response(bytes@, transaction_id),
            out matches Some(id) ==> id == from_be64(bytes@, 8),
    {
        if bytes.len() < 16 {
            return None;
        }
        if read_be32(bytes, 0) != ACTION_CONNECT || read_be32(bytes, 4) != transaction_id {
            return None;
        }
        Some(read_be64(bytes, 8))
    }

    /// The announce request of a transaction on a connection.
    pub fn announce_request(
        connection_id: u64,
        transaction_id: u32,
        info_hash: &[u8],
        peer_id: &[u8],
        stats: &AnnounceStats,
        key: u32,
        port: u16,
    ) -> (bytes: Vec<u8>)
        ensures
            bytes@ == announce_bytes(
                connection_id,
                transaction_id,
                info_hash@,
                peer_id@,
                *stats,
                key,
                port,
            ),
    {
        let mut bytes: Vec<u8> = Vec::new();
        push_be64(&mut bytes, connection_id);
        push_be32(&mut bytes, ACTION_ANNOUNCE);
        push_be32(&mut bytes, transaction_id);
        let mut i: usize = 0;
        while i < info_hash.len()
            invariant
                i <= info_hash@.len(),
                bytes@ == be64(connection_id) + be32(ACTION_ANNOUNCE) + be32(transaction_id)
                    + info_hash@.subrange(0, i as int),
            decreases info_hash@.len() - i,
        {
            bytes.push(info_hash[i]);
            i += 1;
            assert(bytes@ =~= be64(connection_id) + be32(ACTION_ANNOUNCE) + be32(transaction_id)
                + info_hash@.subrange(0, i as int));
        }
        assert(info_hash@.subrange(0, info_hash@.len() as int) =~= info_hash@);
        let mut i: usize = 0;
        while i < peer_id.len()
            invariant
                i <= peer_id@.len(),
                bytes@ == be64(connection_id) + be32(ACTION_ANNOUNCE) + be32(transaction_id)
                    + info_hash@ + peer_id@.subrange(0, i as int),
            decreases peer_id@.len() - i,
        {
            bytes.push(peer_id[i]);
            i += 1;
            assert(bytes@ =~= be64(connection_id) + be32(ACTION_ANNOUNCE) + be32(transaction_id)
                + info_hash@ + peer_id@.subrange(0, i as int));
        }
        assert(peer_id@.subrange(0, peer_id@.len() as int) =~= peer_id@);
        push_be64(&mut bytes, stats.downloaded);
        push_be64(&mut bytes, stats.left);
        push_be64(&mut bytes, stats.uploaded);
        let code: u32 = match stats.event {
            AnnounceEvent::Periodic => 0,
            AnnounceEvent::Completed => 1,
            AnnounceEvent::Started => 2,
            AnnounceEvent::Stopped => 3,
        };
        push_be32(&mut bytes, code);
        push_be32(&mut bytes, 0);
        push_be32(&mut bytes, key);
        push_be32(&mut bytes, 0xffff_ffff);
        let ghost head = bytes@;
        bytes.push((port / 256) as u8);
        bytes.push((port % 256) as u8);
        assert(bytes@ =~= head + be16(port));
        bytes
    }

    /// Reads the answer to an announce request: the interval, the numbers
    /// of leechers and seeders, and the peers, six bytes each. `None` where
    /// the bytes do not answer the request of `transaction_id`.
    pub fn parse_announce_response(bytes: &[u8], transaction_id: u32) -> (out: Option<
        HttpTrackerResponse,
    >)
        ensures
            out is Some <==> is_announce_response(bytes@, transaction_id),
            out matches Some(r) ==> is_response_of(bytes@, r),
    {
        if bytes.len() < 20 {
            return None;
        }
        if read_be32(bytes, 0) != ACTION_ANNOUNCE || read_be32(bytes, 4) != transaction_id {
            return None;
        }
        let tail = crate::peer::copy_range(bytes, 20, bytes.len());
        let peers = match parse_compact_peers(tail.as_slice()) {
            Some(peers) => peers,
            None => {
                return None;
            },
        };
        Some(
            HttpTrackerResponse {
                complete: Some(read_be32(bytes, 16) as u64),
                downloaded: None,
                incomplete: Some(read_be32(bytes, 12) as u64),
                interval: Some(read_be32(bytes, 8) as u64),
                min_interval: None,
                peers: Some(peers),
            },
        )
    }
}

} // verus!
