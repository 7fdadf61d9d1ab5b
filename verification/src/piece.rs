//! The piece manager: which blocks are missing, requested or received, which
//! block to ask a peer for next, and the verification of completed pieces.

use crate::error::EngineError;
use crate::hashing::{bytes_equal, sha1, sha1_digest, DIGEST_LEN};
use crate::torrent::{
    entry_models, lemma_sum_to_monotone, sum_to, total_of, MetadataModel, TorrentMetadata,
};
use vstd::prelude::*;

verus! {

/// Bytes per block, the unit that is requested from a peer. The last block of
/// a piece may be shorter.
pub const BLOCK_SIZE: u32 = 16384;

/// Failed verifications of one piece after which a peer that supplied all of
/// its blocks is reported for disconnection.
pub const BAN_THRESHOLD: u32 = 3;

/// Where a piece stands.
#[derive(Clone, Copy, Debug, PartialEq, Eq, Structural)]
pub enum PieceStatus {
    /// No block of the piece is requested or held.
    Missing,
    /// Some block is requested or held, and the piece is not yet verified.
    InFlight,
    /// The piece matched its digest and went to storage.
    Verified,
}

/// Where a block of a piece stands.
#[derive(Clone, Copy, Debug, PartialEq, Eq, Structural)]
pub enum BlockState {
    /// The block can be requested.
    Free,
    /// The block was requested at time `at` and has not arrived.
    Requested { at: u64 },
    /// The block arrived from `peer`.
    Received { peer: u64 },
}

/// A block as it is named on the wire.
#[derive(Clone, Copy, Debug, PartialEq, Eq, Structural)]
pub struct BlockRequest {
    pub piece: u32,
    pub offset: u32,
    pub length: u32,
}

/// The mathematical content of a `PieceState`.
pub struct PieceModel {
    pub status: PieceStatus,
    pub blocks: Seq<BlockState>,
    pub data: Seq<u8>,
    pub failures: u32,
    pub last_peer: u64,
}

/// Whether every block is free.
pub open spec fn all_free(blocks: Seq<BlockState>) -> bool {
    forall|b: int| 0 <= b < blocks.len() ==> #[trigger] blocks[b] is Free
}

/// Whether every block has arrived.
pub open spec fn all_received(blocks: Seq<BlockState>) -> bool {
    forall|b: int| 0 <= b < blocks.len() ==> #[trigger] blocks[b] is Received
}

/// The index of the first free block at or after `from`, or the number of
/// blocks where there is none.
pub open spec fn first_free(blocks: Seq<BlockState>, from: int) -> int
    decreases blocks.len() - from,
{
    if from >= blocks.len() {
        blocks.len() as int
    } else if blocks[from] is Free {
        from
    } else {
        first_free(blocks, from + 1)
    }
}

/// Whether some block is free.
pub open spec fn has_free(blocks: Seq<BlockState>) -> bool {
    first_free(blocks, 0) < blocks.len()
}

/// `n` zero bytes.
pub open spec fn zeros(n: nat) -> Seq<u8> {
    Seq::new(n, |i: int| 0u8)
}

/// `n` free blocks.
pub open spec fn free_blocks(n: nat) -> Seq<BlockState> {
    Seq::new(n, |i: int| BlockState::Free)
}

/// `data` with `bytes` written over it from `offset` on.
pub open spec fn splice(data: Seq<u8>, offset: int, bytes: Seq<u8>) -> Seq<u8> {
    Seq::new(
        data.len(),
        |i: int|
            if offset <= i < offset + bytes.len() {
                bytes[i - offset]
            } else {
                data[i]
            },
    )
}

/// `x + 1`, or `x` where that does not fit.
pub open spec fn bump32(x: u32) -> u32 {
    if x < u32::MAX {
        (x + 1) as u32
    } else {
        x
    }
}

/// `x + 1`, or `x` where that does not fit.
pub open spec fn bump64(x: u64) -> u64 {
    if x < u64::MAX {
        (x + 1) as u64
    } else {
        x
    }
}

/// What is known of `first_free`: it lies between `from` and the number of
/// blocks, the block it names is free, and none before it is.
pub proof fn lemma_first_free(blocks: Seq<BlockState>, from: int)
    requires
        0 <= from <= blocks.len(),
    ensures
        from <= first_free(blocks, from) <= blocks.len(),
        first_free(blocks, from) < blocks.len() ==> blocks[first_free(blocks, from)] is Free,
        forall|k: int| from <= k < first_free(blocks, from) ==> !(#[trigger] blocks[k] is Free),
    decreases blocks.len() - from,
{
    if from < blocks.len() && !(blocks[from] is Free) {
        lemma_first_free(blocks, from + 1);
    }
}

/// Some block is free exactly where not every block is taken.
pub proof fn lemma_has_free(blocks: Seq<BlockState>)
    ensures
        has_free(blocks) <==> exists|b: int| 0 <= b < blocks.len() && #[trigger] blocks[b] is Free,
{
    lemma_first_free(blocks, 0);
    if has_free(blocks) {
        assert(blocks[first_free(blocks, 0)] is Free);
    }
}

/// The mathematical content of a `PieceManager`.
pub struct ManagerModel {
    pub piece_length: nat,
    pub last_piece_length: nat,
    pub hashes: Seq<Seq<u8>>,
    pub file_lengths: Seq<nat>,
    pub pieces: Seq<PieceModel>,
    pub availability: Seq<u32>,
    pub corrupted: u64,
}

impl ManagerModel {
    pub open spec fn piece_count(self) -> nat {
        self.hashes.len()
    }

    /// The length of piece `p`.
    pub open spec fn piece_len(self, p: int) -> nat {
        if p == self.piece_count() - 1 {
            self.last_piece_length
        } else {
            self.piece_length
        }
    }

    /// The number of blocks of piece `p`.
    pub open spec fn block_count(self, p: int) -> nat {
        ((self.piece_len(p) + BLOCK_SIZE - 1) / (BLOCK_SIZE as int)) as nat
    }

    /// The length of block `b` of piece `p`.
    pub open spec fn block_len(self, p: int, b: int) -> nat {
        if (b + 1) * BLOCK_SIZE <= self.piece_len(p) {
            BLOCK_SIZE as nat
        } else {
            (self.piece_len(p) - b * BLOCK_SIZE) as nat
        }
    }

    /// Whether `p` names a piece and `b` one of its blocks.
    pub open spec fn is_block(self, p: int, b: int) -> bool {
        0 <= p < self.piece_count() && 0 <= b < self.block_count(p)
    }

    /// Whether piece `p` holds all of its blocks and awaits verification.
    pub open spec fn is_complete(self, p: int) -> bool {
        &&& 0 <= p < self.piece_count()
        &&& self.pieces[p].status is InFlight
        &&& all_received(self.pieces[p].blocks)
    }

    /// Whether no piece awaits verification.
    pub open spec fn settled(self) -> bool {
        forall|p: int| 0 <= p < self.piece_count() ==> !self.is_complete(p)
    }

    /// The invariant of one piece: a missing piece has no block taken and no
    /// buffer; a piece in flight has its buffer and some block taken; a
    /// verified piece has given its buffer up and keeps every block received.
    pub open spec fn piece_wf(self, p: int) -> bool {
        let piece = self.pieces[p];
        &&& piece.blocks.len() == self.block_count(p)
        &&& match piece.status {
            PieceStatus::Missing => piece.data.len() == 0 && all_free(piece.blocks),
            PieceStatus::InFlight => piece.data.len() == self.piece_len(p) && !all_free(
                piece.blocks,
            ),
            PieceStatus::Verified => piece.data.len() == 0 && all_received(piece.blocks),
        }
    }

    /// The length of the whole content.
    pub open spec fn content_length(self) -> nat {
        if self.piece_count() == 0 {
            0
        } else {
            ((self.piece_count() - 1) * self.piece_length + self.last_piece_length) as nat
        }
    }

    /// The offset of piece `p` in the content.
    pub open spec fn piece_start(self, p: int) -> nat {
        (p * self.piece_length) as nat
    }

    /// The invariant of the manager.
    pub open spec fn wf(self) -> bool {
        &&& 0 < self.piece_length <= u32::MAX
        &&& total_of(self.file_lengths) == self.content_length()
        &&& self.content_length() <= u64::MAX
        &&& self.piece_count() <= u32::MAX
        &&& self.piece_count() > 0 ==> 0 < self.last_piece_length <= self.piece_length
        &&& self.pieces.len() == self.piece_count()
        &&& self.availability.len() == self.piece_count()
        &&& forall|p: int|
            0 <= p < self.piece_count() ==> (#[trigger] self.hashes[p]).len() == DIGEST_LEN
        &&& forall|p: int| 0 <= p < self.piece_count() ==> #[trigger] self.piece_wf(p)
    }

    /// The manager of a torrent at the start: every piece missing, nothing
    /// known of any peer.
    pub open spec fn fresh(meta: MetadataModel) -> ManagerModel {
        let start = ManagerModel {
            piece_length: meta.piece_length,
            last_piece_length: meta.last_piece_length(),
            hashes: meta.piece_hashes,
            file_lengths: meta.file_lengths(),
            pieces: Seq::empty(),
            availability: Seq::new(meta.piece_count(), |p: int| 0u32),
            corrupted: 0,
        };
        ManagerModel {
            pieces: Seq::new(
                meta.piece_count(),
                |p: int|
                    PieceModel {
                        status: PieceStatus::Missing,
                        blocks: free_blocks(start.block_count(p)),
                        data: Seq::empty(),
                        failures: 0,
                        last_peer: 0,
                    },
            ),
            ..start
        }
    }

    /// Every piece has at least one block, and each block at least one byte.
    pub proof fn lemma_geometry(self, p: int)
        requires
            self.wf(),
            0 <= p < self.piece_count(),
        ensures
            0 < self.piece_len(p) <= self.piece_length,
            0 < self.block_count(p),
            (self.block_count(p) - 1) * BLOCK_SIZE < self.piece_len(p) <= self.block_count(p)
                * BLOCK_SIZE,
            forall|b: int|
                0 <= b < self.block_count(p) ==> 0 < #[trigger] self.block_len(p, b) <= BLOCK_SIZE
                    && b * BLOCK_SIZE + self.block_len(p, b) <= self.piece_len(p),
    {
    }
}

/// The state of one piece: its status, its blocks, and the buffer that
/// gathers its bytes while it is in flight.
pub struct PieceState {
    status: PieceStatus,
    blocks: Vec<BlockState>,
    buffer: Vec<u8>,
    failures: u32,
    last_peer: u64,
}

impl View for PieceState {
    type V = PieceModel;

    closed spec fn view(&self) -> PieceModel {
        PieceModel {
            status: self.status,
            blocks: self.blocks@,
            data: self.buffer@,
            failures: self.failures,
            last_peer: self.last_peer,
        }
    }
}

/// Tracks every piece of one torrent. It alone owns the piece states: peers
/// hand blocks in by value and get block requests out.
pub struct PieceManager {
    piece_length: u32,
    last_piece_length: u32,
    hashes: Vec<Vec<u8>>,
    file_lengths: Vec<u64>,
    pieces: Vec<PieceState>,
    availability: Vec<u32>,
    corrupted: u64,
}

impl View for PieceManager {
    type V = ManagerModel;

    closed spec fn view(&self) -> ManagerModel {
        ManagerModel {
            piece_length: self.piece_length as nat,
            last_piece_length: self.last_piece_length as nat,
            hashes: Seq::new(self.hashes@.len(), |i: int| self.hashes@[i]@),
            file_lengths: Seq::new(self.file_lengths@.len(), |i: int| self.file_lengths@[i] as nat),
            pieces: Seq::new(self.pieces@.len(), |i: int| self.pieces@[i]@),
            availability: self.availability@,
            corrupted: self.corrupted,
        }
    }
}

/// The number of blocks of a piece of `len` bytes.
fn block_count_of(len: u32) -> (n: usize)
    ensures
        n == (len + BLOCK_SIZE - 1) / (BLOCK_SIZE as int),
{
    ((len as u64 + 16383) / 16384) as usize
}

/// `n` free blocks.
fn free_block_vec(n: usize) -> (v: Vec<BlockState>)
    ensures
        v@ == free_blocks(n as nat),
{
    let mut v: Vec<BlockState> = Vec::new();
    let mut i: usize = 0;
    while i < n
        invariant
            i <= n,
            v@ == free_blocks(i as nat),
        decreases n - i,
    {
        v.push(BlockState::Free);
        i += 1;
        assert(v@ =~= free_blocks(i as nat));
    }
    v
}

/// `n` zero bytes.
fn zero_bytes(n: usize) -> (v: Vec<u8>)
    ensures
        v@ == zeros(n as nat),
{
    let mut v: Vec<u8> = Vec::new();
    let mut i: usize = 0;
    while i < n
        invariant
            i <= n,
            v@ == zeros(i as nat),
        decreases n - i,
    {
        v.push(0u8);
        i += 1;
        assert(v@ =~= zeros(i as nat));
    }
    v
}

/// The manager of a well-formed torrent starts well-formed, with no piece
/// awaiting verification.
pub proof fn lemma_fresh_wf(meta: MetadataModel)
    requires
        meta.wf(),
    ensures
        ManagerModel::fresh(meta).wf(),
        ManagerModel::fresh(meta).settled(),
{
    let m = ManagerModel::fresh(meta);
    if meta.piece_count() > 0 {
        meta.lemma_piece_len_bounds(meta.piece_count() - 1);
    } else {
        assert(meta.total_length == 0) by (nonlinear_arith)
            requires
                (0 - 1) * meta.piece_length < meta.total_length <= 0 * meta.piece_length,
        ;
    }
    assert forall|p: int| 0 <= p < m.piece_count() implies #[trigger] m.piece_wf(p) by {}
}

impl PieceManager {
    /// The invariant of the manager.
    pub open spec fn wf(&self) -> bool {
        self@.wf()
    }

    /// The manager of a torrent at the start of a download: every piece
    /// missing, no block requested, nothing known of any peer.
    pub fn new(meta: &TorrentMetadata) -> (m: PieceManager)
        requires
            meta.wf(),
        ensures
            m@ == ManagerModel::fresh(meta@),
            m.wf(),
            m@.settled(),
    {
        let count = meta.piece_count();
        let piece_length = meta.piece_length();
        let last_piece_length: u32 = if count > 0 {
            meta.piece_len(count - 1)
        } else {
            0
        };
        let ghost want = ManagerModel::fresh(meta@);
        let mut hashes: Vec<Vec<u8>> = Vec::new();
        let mut pieces: Vec<PieceState> = Vec::new();
        let mut availability: Vec<u32> = Vec::new();
        let mut p: usize = 0;
        while p < count
            invariant
                meta.wf(),
                count == meta@.piece_count(),
                piece_length == meta@.piece_length,
                last_piece_length == meta@.last_piece_length(),
                want == ManagerModel::fresh(meta@),
                p <= count,
                hashes@.len() == p,
                pieces@.len() == p,
                availability@.len() == p,
                forall|k: int| 0 <= k < p ==> (#[trigger] hashes@[k])@ == meta@.piece_hashes[k],
                forall|k: int| 0 <= k < p ==> (#[trigger] pieces@[k])@ == want.pieces[k],
                forall|k: int| 0 <= k < p ==> #[trigger] availability@[k] == 0,
            decreases count - p,
        {
            let len: u32 = if p + 1 == count {
                last_piece_length
            } else {
                piece_length
            };
            hashes.push(crate::torrent::copy_bytes(meta.piece_hash(p).as_slice()));
            let piece = PieceState {
                status: PieceStatus::Missing,
                blocks: free_block_vec(block_count_of(len)),
                buffer: Vec::new(),
                failures: 0,
                last_peer: 0,
            };
            assert(piece@ == want.pieces[p as int]);
            pieces.push(piece);
            availability.push(0);
            p += 1;
        }
        let files = meta.files();
        let mut file_lengths: Vec<u64> = Vec::new();
        let mut f: usize = 0;
        while f < files.len()
            invariant
                f <= files@.len(),
                file_lengths@.len() == f,
                forall|k: int| 0 <= k < f ==> #[trigger] file_lengths@[k] == files@[k].length,
            decreases files@.len() - f,
        {
            file_lengths.push(files[f].length);
            f += 1;
        }
        let m = PieceManager {
            piece_length,
            last_piece_length,
            hashes,
            file_lengths,
            pieces,
            availability,
            corrupted: 0,
        };
        proof {
            assert(m@.hashes =~= want.hashes);
            assert(m@.pieces =~= want.pieces);
            assert(m@.availability =~= want.availability);
            assert(m@.file_lengths =~= want.file_lengths) by {
                assert(entry_models(files@) == meta@.files);
                assert forall|k: int| 0 <= k < files@.len() implies m@.file_lengths[k]
                    == want.file_lengths[k] by {
                    assert(entry_models(files@)[k] == files@[k]@);
                }
            }
            assert(m@ == want);
            lemma_fresh_wf(meta@);
        }
        m
    }

    /// Number of pieces.
    pub fn piece_count(&self) -> (n: usize)
        ensures
            n == self@.piece_count(),
    {
        self.hashes.len()
    }

    /// The status of piece `p`.
    pub fn status(&self, p: usize) -> (s: PieceStatus)
        requires
            self.wf(),
            p < self@.piece_count(),
        ensures
            s == self@.pieces[p as int].status,
    {
        self.pieces[p].status
    }

    /// How often a completed piece failed verification.
    pub fn corrupted(&self) -> (n: u64)
        ensures
            n == self@.corrupted,
    {
        self.corrupted
    }

    /// How many known peers hold piece `p`.
    pub fn availability(&self, p: usize) -> (n: u32)
        requires
            self.wf(),
            p < self@.piece_count(),
        ensures
            n == self@.availability[p as int],
    {
        self.availability[p]
    }
}

impl ManagerModel {
    /// The availability counts after a peer with bitfield `bf` has joined.
    pub open spec fn with_peer(self, bf: Seq<bool>) -> ManagerModel {
        ManagerModel {
            availability: Seq::new(
                self.availability.len(),
                |p: int|
                    if p < bf.len() && bf[p] {
                        bump32(self.availability[p])
                    } else {
                        self.availability[p]
                    },
            ),
            ..self
        }
    }

    /// The availability counts after a peer with bitfield `bf` has left.
    pub open spec fn without_peer(self, bf: Seq<bool>) -> ManagerModel {
        ManagerModel {
            availability: Seq::new(
                self.availability.len(),
                |p: int|
                    if p < bf.len() && bf[p] && self.availability[p] > 0 {
                        (self.availability[p] - 1) as u32
                    } else {
                        self.availability[p]
                    },
            ),
            ..self
        }
    }

    /// The availability counts after a peer has announced piece `p`.
    pub open spec fn with_have(self, p: int) -> ManagerModel {
        if 0 <= p < self.availability.len() {
            ManagerModel {
                availability: self.availability.update(p, bump32(self.availability[p])),
                ..self
            }
        } else {
            self
        }
    }

    /// Whether a block of piece `p` can be asked of a peer with bitfield
    /// `bf`: the peer has the piece, it is not verified here, and one of its
    /// blocks is free.
    pub open spec fn is_candidate(self, bf: Seq<bool>, p: int) -> bool {
        &&& 0 <= p < self.piece_count()
        &&& p < bf.len()
        &&& bf[p]
        &&& !(self.pieces[p].status is Verified)
        &&& has_free(self.pieces[p].blocks)
    }

    /// Whether piece `a` is to be asked for before piece `b`: it is held by
    /// fewer peers, or by as many and has the lower index.
    pub open spec fn rarer(self, a: int, b: int) -> bool {
        self.availability[a] < self.availability[b] || (self.availability[a]
            == self.availability[b] && a <= b)
    }

    /// The rarest candidate among the pieces below `n`, the lowest index
    /// among equally rare ones.
    pub open spec fn best_upto(self, bf: Seq<bool>, n: int) -> Option<int>
        decreases n,
    {
        if n <= 0 {
            None
        } else {
            let before = self.best_upto(bf, n - 1);
            if self.is_candidate(bf, n - 1) && (before is None || self.availability[n - 1]
                < self.availability[before.unwrap()]) {
                Some(n - 1)
            } else {
                before
            }
        }
    }

    /// The piece to ask a peer with bitfield `bf` for: rarest first.
    pub open spec fn select(self, bf: Seq<bool>) -> Option<int> {
        self.best_upto(bf, self.piece_count() as int)
    }

    /// The state after block `b` of piece `p` was requested at time `now`.
    pub open spec fn with_request(self, p: int, b: int, now: u64) -> ManagerModel {
        let piece = self.pieces[p];
        let taken = PieceModel {
            status: PieceStatus::InFlight,
            blocks: piece.blocks.update(b, BlockState::Requested { at: now }),
            data: if piece.status is Missing {
                zeros(self.piece_len(p))
            } else {
                piece.data
            },
            ..piece
        };
        ManagerModel { pieces: self.pieces.update(p, taken), ..self }
    }

    /// What `best_upto` finds is a candidate that no candidate below `n`
    /// comes before; it finds none only where there is none.
    pub proof fn lemma_best_upto(self, bf: Seq<bool>, n: int)
        requires
            0 <= n <= self.piece_count(),
        ensures
            match self.best_upto(bf, n) {
                Some(best) => 0 <= best < n && self.is_candidate(bf, best) && forall|q: int|
                    0 <= q < n && #[trigger] self.is_candidate(bf, q) ==> self.rarer(best, q),
                None => forall|q: int| 0 <= q < n ==> !#[trigger] self.is_candidate(bf, q),
            },
        decreases n,
    {
        if n > 0 {
            self.lemma_best_upto(bf, n - 1);
        }
    }

    /// Requesting a free block keeps the invariant, and leaves no piece
    /// awaiting verification where none was.
    pub proof fn lemma_with_request(self, p: int, b: int, now: u64)
        requires
            self.wf(),
            self.is_block(p, b),
            self.pieces[p].blocks[b] is Free,
            !(self.pieces[p].status is Verified),
        ensures
            self.with_request(p, b, now).wf(),
            self.settled() ==> self.with_request(p, b, now).settled(),
    {
        let after = self.with_request(p, b, now);
        assert(self.piece_wf(p));
        assert(after.pieces[p].blocks[b] is Requested);
        assert forall|q: int| 0 <= q < after.piece_count() implies #[trigger] after.piece_wf(
            q,
        ) by {
            assert(self.piece_wf(q));
        }
        if self.settled() {
            assert forall|q: int| 0 <= q < after.piece_count() implies !after.is_complete(q) by {
                assert(!self.is_complete(q));
                if q == p {
                    assert(!(after.pieces[p].blocks[b] is Received));
                }
            }
        }
    }
}

/// The index of the first free block, or the number of blocks.
fn first_free_index(blocks: &Vec<BlockState>) -> (b: usize)
    ensures
        b == first_free(blocks@, 0),
        b <= blocks@.len(),
{
    let mut i: usize = 0;
    while i < blocks.len()
        invariant
            i <= blocks@.len(),
            first_free(blocks@, 0) == first_free(blocks@, i as int),
        decreases blocks@.len() - i,
    {
        match blocks[i] {
            BlockState::Free => {
                return i;
            },
            _ => {},
        }
        i += 1;
    }
    i
}

impl PieceManager {
    /// Counts a peer that has joined with bitfield `bf` into the
    /// availability of the pieces it holds.
    pub fn peer_joined(&mut self, bf: &Vec<bool>)
        requires
            old(self).wf(),
        ensures
            final(self)@ == old(self)@.with_peer(bf@),
            final(self).wf(),
            old(self)@.settled() ==> final(self)@.settled(),
    {
        let ghost before = self@;
        let mut p: usize = 0;
        while p < self.availability.len()
            invariant
                p <= self.availability@.len(),
                self.availability@.len() == before.availability.len(),
                self@ == (ManagerModel { availability: self.availability@, ..before }),
                forall|k: int|
                    0 <= k < p ==> #[trigger] self.availability@[k] == before.with_peer(
                        bf@,
                    ).availability[k],
                forall|k: int|
                    p <= k < self.availability@.len() ==> #[trigger] self.availability@[k]
                        == before.availability[k],
            decreases self.availability@.len() - p,
        {
            if p < bf.len() && bf[p] && self.availability[p] < u32::MAX {
                self.availability[p] = self.availability[p] + 1;
            }
            p += 1;
        }
        proof {
            assert(self@.availability =~= before.with_peer(bf@).availability);
            lemma_same_pieces_wf(before, self@);
        }
    }

    /// Takes a peer that has left, with bitfield `bf`, out of the
    /// availability of the pieces it held.
    pub fn peer_left(&mut self, bf: &Vec<bool>)
        requires
            old(self).wf(),
        ensures
            final(self)@ == old(self)@.without_peer(bf@),
            final(self).wf(),
            old(self)@.settled() ==> final(self)@.settled(),
    {
        let ghost before = self@;
        let mut p: usize = 0;
        while p < self.availability.len()
            invariant
                p <= self.availability@.len(),
                self.availability@.len() == before.availability.len(),
                self@ == (ManagerModel { availability: self.availability@, ..before }),
                forall|k: int|
                    0 <= k < p ==> #[trigger] self.availability@[k] == before.without_peer(
                        bf@,
                    ).availability[k],
                forall|k: int|
                    p <= k < self.availability@.len() ==> #[trigger] self.availability@[k]
                        == before.availability[k],
            decreases self.availability@.len() - p,
        {
            if p < bf.len() && bf[p] && self.availability[p] > 0 {
                self.availability[p] = self.availability[p] - 1;
            }
            p += 1;
        }
        proof {
            assert(self@.availability =~= before.without_peer(bf@).availability);
            lemma_same_pieces_wf(before, self@);
        }
    }

    /// Counts one more peer into the availability of piece `p`; a `p` that
    /// names no piece changes nothing.
    pub fn peer_has(&mut self, p: u32)
        requires
            old(self).wf(),
        ensures
            final(self)@ == old(self)@.with_have(p as int),
            final(self).wf(),
            old(self)@.settled() ==> final(self)@.settled(),
    {
        let ghost before = self@;
        let i = p as usize;
        if i < self.availability.len() {
            if self.availability[i] < u32::MAX {
                self.availability[i] = self.availability[i] + 1;
            }
            proof {
                assert(self@.availability =~= before.with_have(p as int).availability);
                lemma_same_pieces_wf(before, self@);
            }
        }
    }
}

/// A change of the availability counts alone keeps the invariant.
pub proof fn lemma_same_pieces_wf(before: ManagerModel, after: ManagerModel)
    requires
        before.wf(),
        after == (ManagerModel { availability: after.availability, ..before }),
        after.availability.len() == before.availability.len(),
    ensures
        after.wf(),
        before.settled() ==> after.settled(),
{
    assert forall|q: int| 0 <= q < after.piece_count() implies #[trigger] after.piece_wf(q) by {
        assert(before.piece_wf(q));
    }
    if before.settled() {
        assert forall|q: int| 0 <= q < after.piece_count() implies !after.is_complete(q) by {
            assert(!before.is_complete(q));
        }
    }
}

impl ManagerModel {
    /// The request that names block `b` of piece `p` on the wire.
    pub open spec fn request_for(self, p: int, b: int) -> BlockRequest {
        BlockRequest {
            piece: p as u32,
            offset: (b * BLOCK_SIZE) as u32,
            length: self.block_len(p, b) as u32,
        }
    }

    /// The block to ask a peer with bitfield `bf` for next: the first free
    /// block of the rarest piece that the peer has and that is not verified
    /// here. `None` where the peer has nothing to offer.
    pub open spec fn next_request(self, bf: Seq<bool>) -> Option<(int, int)> {
        match self.select(bf) {
            Some(p) => Some((p, first_free(self.pieces[p].blocks, 0))),
            None => None,
        }
    }

    /// The piece and block that a wire triple names, if it names one: the
    /// offset is a multiple of the block size and the length is that block's.
    pub open spec fn block_at(self, piece: u32, offset: u32, length: u32) -> Option<(int, int)> {
        let p = piece as int;
        let b = offset as int / (BLOCK_SIZE as int);
        if p < self.piece_count() && offset as int % (BLOCK_SIZE as int) == 0 && b
            < self.block_count(p) && length == self.block_len(p, b) {
            Some((p, b))
        } else {
            None
        }
    }

    /// Whether block `b` of piece `p` is requested and can be given back.
    pub open spec fn releasable(self, p: int, b: int) -> bool {
        &&& self.is_block(p, b)
        &&& self.pieces[p].status is InFlight
        &&& self.pieces[p].blocks[b] is Requested
    }

    /// The state after block `b` of piece `p` was given back: the block is
    /// free again, and a piece left with no block taken is missing again,
    /// its buffer gone. A block that is not requested changes nothing.
    pub open spec fn with_release(self, p: int, b: int) -> ManagerModel {
        if !self.releasable(p, b) {
            self
        } else {
            let piece = self.pieces[p];
            let blocks = piece.blocks.update(b, BlockState::Free);
            let freed = if all_free(blocks) {
                PieceModel { status: PieceStatus::Missing, blocks, data: Seq::empty(), ..piece }
            } else {
                PieceModel { blocks, ..piece }
            };
            ManagerModel { pieces: self.pieces.update(p, freed), ..self }
        }
    }

    /// Giving a block back keeps the invariant.
    pub proof fn lemma_with_release(self, p: int, b: int)
        requires
            self.wf(),
        ensures
            self.with_release(p, b).wf(),
            self.settled() ==> self.with_release(p, b).settled(),
    {
        let after = self.with_release(p, b);
        if self.releasable(p, b) {
            assert(self.piece_wf(p));
            assert(after.pieces[p].blocks[b] is Free);
            assert forall|q: int| 0 <= q < after.piece_count() implies #[trigger] after.piece_wf(
                q,
            ) by {
                assert(self.piece_wf(q));
            }
            if self.settled() {
                assert forall|q: int| 0 <= q < after.piece_count() implies !after.is_complete(
                    q,
                ) by {
                    assert(!self.is_complete(q));
                    if q == p {
                        assert(!(after.pieces[p].blocks[b] is Received));
                    }
                }
            }
        }
    }
}

/// Whether every block is free.
fn all_blocks_free(blocks: &Vec<BlockState>) -> (free: bool)
    ensures
        free == all_free(blocks@),
{
    let mut i: usize = 0;
    while i < blocks.len()
        invariant
            i <= blocks@.len(),
            forall|k: int| 0 <= k < i ==> #[trigger] blocks@[k] is Free,
        decreases blocks@.len() - i,
    {
        match blocks[i] {
            BlockState::Free => {},
            _ => {
                assert(!(blocks@[i as int] is Free));
                return false;
            },
        }
        i += 1;
    }
    true
}

/// Whether every block has arrived.
fn all_blocks_received(blocks: &Vec<BlockState>) -> (received: bool)
    ensures
        received == all_received(blocks@),
{
    let mut i: usize = 0;
    while i < blocks.len()
        invariant
            i <= blocks@.len(),
            forall|k: int| 0 <= k < i ==> #[trigger] blocks@[k] is Received,
        decreases blocks@.len() - i,
    {
        match blocks[i] {
            BlockState::Received { .. } => {},
            _ => {
                assert(!(blocks@[i as int] is Received));
                return false;
            },
        }
        i += 1;
    }
    true
}

impl PieceManager {
    /// The length of piece `p`.
    pub fn piece_len(&self, p: usize) -> (len: u32)
        requires
            self.wf(),
            p < self@.piece_count(),
        ensures
            len == self@.piece_len(p as int),
    {
        if p + 1 == self.hashes.len() {
            self.last_piece_length
        } else {
            self.piece_length
        }
    }

    /// The piece and block that a wire triple names, if it names one.
    pub fn locate(&self, piece: u32, offset: u32, length: u32) -> (out: Option<(usize, usize)>)
        requires
            self.wf(),
        ensures
            match out {
                Some((p, b)) => self@.block_at(piece, offset, length) == Some((p as int, b as int)),
                None => self@.block_at(piece, offset, length) is None,
            },
    {
        let p = piece as usize;
        if p >= self.hashes.len() {
            return None;
        }
        if offset % BLOCK_SIZE != 0 {
            return None;
        }
        let b = (offset / BLOCK_SIZE) as usize;
        let len = self.piece_len(p);
        proof {
            self@.lemma_geometry(p as int);
        }
        if offset >= len {
            return None;
        }
        let want: u32 = if len - offset >= BLOCK_SIZE {
            BLOCK_SIZE
        } else {
            len - offset
        };
        if length != want {
            return None;
        }
        Some((p, b))
    }

    /// Picks the block to ask a peer for next and marks it requested at time
    /// `now`. The piece is the rarest among those that the peer's bitfield
    /// offers and that are not verified here, the lowest index among equally
    /// rare ones; the block is its first free one. A missing piece becomes
    /// in flight. `None`, and no change, where the peer offers no piece with
    /// a free block.
    pub fn next_block_to_request(&mut self, peer_bitfield: &Vec<bool>, now: u64) -> (out: Option<
        BlockRequest,
    >)
        requires
            old(self).wf(),
        ensures
            final(self).wf(),
            old(self)@.settled() ==> final(self)@.settled(),
            match old(self)@.next_request(peer_bitfield@) {
                Some((p, b)) => out == Some(old(self)@.request_for(p, b)) && final(self)@ == old(
                    self,
                )@.with_request(p, b, now),
                None => out is None && final(self)@ == old(self)@,
            },
    {
        let ghost before = self@;
        let ghost bf = peer_bitfield@;
        let count = self.pieces.len();
        let mut best: Option<usize> = None;
        let mut p: usize = 0;
        while p < count
            invariant
                self.wf(),
                self@ == before,
                bf == peer_bitfield@,
                count == self.pieces@.len(),
                p <= count,
                best matches Some(q) ==> q < p && before.best_upto(bf, p as int) == Some(q as int),
                best is None ==> before.best_upto(bf, p as int) is None,
            decreases count - p,
        {
            let mut candidate = false;
            if p < peer_bitfield.len() && peer_bitfield[p] {
                match self.pieces[p].status {
                    PieceStatus::Verified => {},
                    _ => {
                        candidate = first_free_index(&self.pieces[p].blocks)
                            < self.pieces[p].blocks.len();
                    },
                }
            }
            assert(candidate == before.is_candidate(bf, p as int));
            if candidate {
                let better = match best {
                    None => true,
                    Some(q) => self.availability[p] < self.availability[q],
                };
                if better {
                    best = Some(p);
                }
            }
            p += 1;
        }
        match best {
            None => None,
            Some(p) => {
                let b = first_free_index(&self.pieces[p].blocks);
                proof {
                    before.lemma_best_upto(bf, count as int);
                    lemma_first_free(before.pieces[p as int].blocks, 0);
                    before.lemma_geometry(p as int);
                    assert(before.piece_wf(p as int));
                    before.lemma_with_request(p as int, b as int, now);
                }
                let len = self.piece_len(p);
                let offset: u32 = (b as u32) * BLOCK_SIZE;
                let length: u32 = if len - offset >= BLOCK_SIZE {
                    BLOCK_SIZE
                } else {
                    len - offset
                };
                match self.pieces[p].status {
                    PieceStatus::Missing => {
                        self.pieces[p].buffer = zero_bytes(len as usize);
                    },
                    _ => {},
                }
                self.pieces[p].status = PieceStatus::InFlight;
                self.pieces[p].blocks[b] = BlockState::Requested { at: now };
                proof {
                    let want = before.with_request(p as int, b as int, now);
                    assert(self@.pieces[p as int] == want.pieces[p as int]);
                    assert(self@.pieces =~= want.pieces);
                    assert(self@.hashes =~= want.hashes);
                    assert(self@.file_lengths =~= want.file_lengths);
                    assert(self@ == want);
                }
                Some(BlockRequest { piece: p as u32, offset, length })
            },
        }
    }

    /// Gives a requested block back, after a timeout, a cancel or the loss
    /// of the peer that was asked: the block can be requested again, by any
    /// peer. A triple that names no block, or a block that is not requested,
    /// changes nothing. Returns whether a block was given back.
    pub fn release(&mut self, piece_index: u32, offset: u32, length: u32) -> (released: bool)
        requires
            old(self).wf(),
        ensures
            final(self).wf(),
            old(self)@.settled() ==> final(self)@.settled(),
            match old(self)@.block_at(piece_index, offset, length) {
                Some((p, b)) => final(self)@ == old(self)@.with_release(p, b) && released == old(
                    self,
                )@.releasable(p, b),
                None => final(self)@ == old(self)@ && !released,
            },
    {
        let ghost before = self@;
        match self.locate(piece_index, offset, length) {
            None => false,
            Some((p, b)) => {
                proof {
                    assert(before.piece_wf(p as int));
                    before.lemma_with_release(p as int, b as int);
                }
                let requested = match self.pieces[p].status {
                    PieceStatus::InFlight => match self.pieces[p].blocks[b] {
                        BlockState::Requested { .. } => true,
                        _ => false,
                    },
                    _ => false,
                };
                if !requested {
                    return false;
                }
                self.pieces[p].blocks[b] = BlockState::Free;
                if all_blocks_free(&self.pieces[p].blocks) {
                    self.pieces[p].status = PieceStatus::Missing;
                    self.pieces[p].buffer = Vec::new();
                }
                proof {
                    let want = before.with_release(p as int, b as int);
                    assert(self@.pieces[p as int].data =~= want.pieces[p as int].data);
                    assert(self@.pieces[p as int] == want.pieces[p as int]);
                    assert(self@.pieces =~= want.pieces);
                    assert(self@.hashes =~= want.hashes);
                    assert(self@.file_lengths =~= want.file_lengths);
                    assert(self@ == want);
                }
                true
            },
        }
    }
}

/// One write to the storage sink: `length` bytes, taken from `data_offset`
/// on in a piece's bytes, go to `file_offset` in file number `file`.
#[derive(Clone, Copy, Debug, PartialEq, Eq, Structural)]
pub struct FileWrite {
    pub file: usize,
    pub file_offset: u64,
    pub data_offset: u64,
    pub length: u64,
}

/// The mathematical content of a `FileWrite`.
pub struct WriteModel {
    pub file: int,
    pub file_offset: int,
    pub data_offset: int,
    pub length: int,
}

impl View for FileWrite {
    type V = WriteModel;

    open spec fn view(&self) -> WriteModel {
        WriteModel {
            file: self.file as int,
            file_offset: self.file_offset as int,
            data_offset: self.data_offset as int,
            length: self.length as int,
        }
    }
}

/// The models of a list of writes.
pub open spec fn write_models(writes: Seq<FileWrite>) -> Seq<WriteModel> {
    Seq::new(writes.len(), |i: int| writes[i]@)
}

/// The writes that carry the bytes `start .. start + len` of the content to
/// the first `n` files: one for each of those files that the range meets, in
/// file order, each as long as the part of the range that lies in its file.
pub open spec fn writes_upto(lengths: Seq<nat>, start: int, len: int, n: int) -> Seq<WriteModel>
    decreases n,
{
    if n <= 0 {
        Seq::empty()
    } else {
        let file_start = sum_to(lengths, n - 1) as int;
        let file_end = file_start + lengths[n - 1];
        let lo = if start > file_start {
            start
        } else {
            file_start
        };
        let hi = if start + len < file_end {
            start + len
        } else {
            file_end
        };
        let before = writes_upto(lengths, start, len, n - 1);
        if lo < hi {
            before.push(
                WriteModel {
                    file: n - 1,
                    file_offset: lo - file_start,
                    data_offset: lo - start,
                    length: hi - lo,
                },
            )
        } else {
            before
        }
    }
}

/// The writes that carry the bytes `start .. start + len` of the content to
/// the files of the given lengths.
pub open spec fn file_writes(lengths: Seq<nat>, start: int, len: int) -> Seq<WriteModel> {
    writes_upto(lengths, start, len, lengths.len() as int)
}

/// The lengths of a list of files as numbers.
pub open spec fn nat_lengths(lengths: Seq<u64>) -> Seq<nat> {
    Seq::new(lengths.len(), |i: int| lengths[i] as nat)
}

/// Maps a range of the content to the files that hold it.
pub fn map_to_files(lengths: &Vec<u64>, start: u64, len: u64) -> (out: Vec<FileWrite>)
    requires
        total_of(nat_lengths(lengths@)) <= u64::MAX,
        start + len <= u64::MAX,
    ensures
        write_models(out@) == file_writes(nat_lengths(lengths@), start as int, len as int),
{
    let ghost spec_lengths = nat_lengths(lengths@);
    let end: u64 = start + len;
    let mut out: Vec<FileWrite> = Vec::new();
    let mut file_start: u64 = 0;
    let mut f: usize = 0;
    while f < lengths.len()
        invariant
            f <= lengths@.len(),
            spec_lengths == nat_lengths(lengths@),
            total_of(spec_lengths) <= u64::MAX,
            end == start + len,
            file_start == sum_to(spec_lengths, f as int),
            write_models(out@) == writes_upto(spec_lengths, start as int, len as int, f as int),
        decreases lengths@.len() - f,
    {
        proof {
            lemma_sum_to_monotone(spec_lengths, f + 1, spec_lengths.len() as int);
        }
        let file_end: u64 = file_start + lengths[f];
        let lo: u64 = if start > file_start {
            start
        } else {
            file_start
        };
        let hi: u64 = if end < file_end {
            end
        } else {
            file_end
        };
        if lo < hi {
            out.push(
                FileWrite {
                    file: f,
                    file_offset: lo - file_start,
                    data_offset: lo - start,
                    length: hi - lo,
                },
            );
        }
        file_start = file_end;
        f += 1;
        assert(write_models(out@) =~= writes_upto(
            spec_lengths,
            start as int,
            len as int,
            f as int,
        ));
    }
    out
}

/// Writes `bytes` over `buffer` from `offset` on.
fn write_at(buffer: &mut Vec<u8>, offset: usize, bytes: &[u8])
    requires
        offset + bytes@.len() <= old(buffer)@.len(),
    ensures
        final(buffer)@ == splice(old(buffer)@, offset as int, bytes@),
{
    let ghost before = buffer@;
    let mut i: usize = 0;
    while i < bytes.len()
        invariant
            i <= bytes@.len(),
            offset + bytes@.len() <= buffer.len(),
            buffer@.len() == before.len(),
            buffer@ == splice(before, offset as int, bytes@.subrange(0, i as int)),
        decreases bytes@.len() - i,
    {
        buffer[offset + i] = bytes[i];
        i += 1;
        assert(buffer@ =~= splice(before, offset as int, bytes@.subrange(0, i as int)));
    }
    assert(bytes@.subrange(0, bytes@.len() as int) =~= bytes@);
}

/// The peer that every block came from, where they all came from one.
pub open spec fn sole_source(blocks: Seq<BlockState>) -> Option<u64> {
    if blocks.len() > 0 && blocks[0] is Received && forall|b: int|
        0 <= b < blocks.len() ==> #[trigger] blocks[b] == blocks[0] {
        Some(blocks[0]->peer)
    } else {
        None
    }
}

/// The peer that every block came from, where they all came from one.
fn sole_source_of(blocks: &Vec<BlockState>) -> (out: Option<u64>)
    ensures
        out == sole_source(blocks@),
{
    if blocks.len() == 0 {
        return None;
    }
    let first: u64 = match blocks[0] {
        BlockState::Received { peer } => peer,
        _ => {
            return None;
        },
    };
    let mut i: usize = 1;
    while i < blocks.len()
        invariant
            1 <= i <= blocks@.len(),
            blocks@[0] == (BlockState::Received { peer: first }),
            forall|k: int| 0 <= k < i ==> #[trigger] blocks@[k] == blocks@[0],
        decreases blocks@.len() - i,
    {
        match blocks[i] {
            BlockState::Received { peer } => {
                if peer != first {
                    assert(blocks@[i as int] != blocks@[0]);
                    return None;
                }
            },
            _ => {
                assert(blocks@[i as int] != blocks@[0]);
                return None;
            },
        }
        i += 1;
    }
    Some(first)
}

/// What became of a block that was handed in.
#[derive(Clone, Debug, PartialEq, Eq)]
pub enum SubmitOutcome {
    /// The block was not taken: it names no block, has the wrong length,
    /// belongs to a verified piece or had arrived before. Nothing changed.
    Rejected,
    /// The block was stored; its piece is not yet whole.
    Stored,
    /// The block made its piece whole and the piece matched its digest:
    /// `data` holds the piece, `writes` say where in the files it goes.
    Completed { piece: u32, data: Vec<u8>, writes: Vec<FileWrite> },
    /// The block made its piece whole and the piece did not match its
    /// digest: the piece is missing again. `suspect` supplied the last
    /// block; `ban` names the peer to disconnect, if any.
    Corrupt { piece: u32, suspect: u64, ban: Option<u64> },
}

/// The mathematical content of a `SubmitOutcome`.
pub enum OutcomeModel {
    Rejected,
    Stored,
    Completed { piece: int, data: Seq<u8>, writes: Seq<WriteModel> },
    Corrupt { piece: int, suspect: u64, ban: Option<u64> },
}

impl View for SubmitOutcome {
    type V = OutcomeModel;

    open spec fn view(&self) -> OutcomeModel {
        match *self {
            SubmitOutcome::Rejected => OutcomeModel::Rejected,
            SubmitOutcome::Stored => OutcomeModel::Stored,
            SubmitOutcome::Completed { piece, data, writes } => OutcomeModel::Completed {
                piece: piece as int,
                data: data@,
                writes: write_models(writes@),
            },
            SubmitOutcome::Corrupt { piece, suspect, ban } => OutcomeModel::Corrupt {
                piece: piece as int,
                suspect,
                ban,
            },
        }
    }
}

impl SubmitOutcome {
    /// The failure that the outcome stands for: a piece that failed its
    /// verification, which is rescheduled; no other outcome is a failure.
    pub fn failure(&self) -> (failure: Option<EngineError>)
        ensures
            failure == (if self@ is Corrupt {
                Some(EngineError::PieceVerificationFailed)
            } else {
                None::<EngineError>
            }),
    {
        match self {
            SubmitOutcome::Corrupt { .. } => Some(EngineError::PieceVerificationFailed),
            _ => None,
        }
    }
}

/// What became of a block that was stored.
#[derive(Clone, Copy, Debug, PartialEq, Eq, Structural)]
pub enum Placement {
    /// The block was not taken; nothing changed.
    Rejected,
    /// The block was stored; its piece is not yet whole.
    Stored,
    /// The block was stored and made this piece whole: it awaits its digest.
    Whole(usize),
}

impl ManagerModel {
    /// The piece and block that a delivered block goes to, where it is
    /// taken: it names a block by its offset and its length, the piece is not
    /// verified and the block has not arrived before.
    pub open spec fn target(self, piece: u32, offset: u32, bytes: Seq<u8>) -> Option<(int, int)> {
        if bytes.len() > BLOCK_SIZE {
            None
        } else {
            match self.block_at(piece, offset, bytes.len() as u32) {
                Some((p, b)) => if self.pieces[p].status is Verified
                    || self.pieces[p].blocks[b] is Received {
                    None
                } else {
                    Some((p, b))
                },
                None => None,
            }
        }
    }

    /// The state after `bytes` from `peer` were stored as block `b` of piece
    /// `p`.
    pub open spec fn with_block(self, peer: u64, p: int, b: int, bytes: Seq<u8>) -> ManagerModel {
        let piece = self.pieces[p];
        let base = if piece.status is Missing {
            zeros(self.piece_len(p))
        } else {
            piece.data
        };
        let stored = PieceModel {
            status: PieceStatus::InFlight,
            blocks: piece.blocks.update(b, BlockState::Received { peer }),
            data: splice(base, b * BLOCK_SIZE, bytes),
            last_peer: peer,
            ..piece
        };
        ManagerModel { pieces: self.pieces.update(p, stored), ..self }
    }

    /// The peer to disconnect when the whole piece `p` fails its digest: the
    /// one that supplied all of its blocks, once the piece has failed
    /// `BAN_THRESHOLD` times.
    pub open spec fn ban_for(self, p: int) -> Option<u64> {
        if bump32(self.pieces[p].failures) >= BAN_THRESHOLD {
            sole_source(self.pieces[p].blocks)
        } else {
            None
        }
    }

    /// The state after the whole piece `p` was found to have `digest`: where
    /// that is its expected digest the piece is verified, else it is missing
    /// again and the corruption counters go up. Either way its buffer is
    /// given up.
    pub open spec fn with_verdict(self, p: int, digest: Seq<u8>) -> ManagerModel {
        let piece = self.pieces[p];
        if digest == self.hashes[p] {
            let done = PieceModel { status: PieceStatus::Verified, data: Seq::empty(), ..piece };
            ManagerModel { pieces: self.pieces.update(p, done), ..self }
        } else {
            let again = PieceModel {
                status: PieceStatus::Missing,
                blocks: free_blocks(self.block_count(p)),
                data: Seq::empty(),
                failures: bump32(piece.failures),
                ..piece
            };
            ManagerModel {
                pieces: self.pieces.update(p, again),
                corrupted: bump64(self.corrupted),
                ..self
            }
        }
    }

    /// What is reported when the whole piece `p` is found to have `digest`.
    pub open spec fn verdict_outcome(self, p: int, digest: Seq<u8>) -> OutcomeModel {
        if digest == self.hashes[p] {
            OutcomeModel::Completed {
                piece: p,
                data: self.pieces[p].data,
                writes: file_writes(
                    self.file_lengths,
                    self.piece_start(p) as int,
                    self.piece_len(p) as int,
                ),
            }
        } else {
            OutcomeModel::Corrupt {
                piece: p,
                suspect: self.pieces[p].last_peer,
                ban: self.ban_for(p),
            }
        }
    }

    /// The state after a block was handed in.
    pub open spec fn with_submit(
        self,
        peer: u64,
        piece: u32,
        offset: u32,
        bytes: Seq<u8>,
    ) -> ManagerModel {
        match self.target(piece, offset, bytes) {
            None => self,
            Some((p, b)) => {
                let stored = self.with_block(peer, p, b, bytes);
                if stored.is_complete(p) {
                    stored.with_verdict(p, sha1_digest(stored.pieces[p].data))
                } else {
                    stored
                }
            },
        }
    }

    /// What is reported for a block that was handed in.
    pub open spec fn submit_outcome(
        self,
        peer: u64,
        piece: u32,
        offset: u32,
        bytes: Seq<u8>,
    ) -> OutcomeModel {
        match self.target(piece, offset, bytes) {
            None => OutcomeModel::Rejected,
            Some((p, b)) => {
                let stored = self.with_block(peer, p, b, bytes);
                if stored.is_complete(p) {
                    stored.verdict_outcome(p, sha1_digest(stored.pieces[p].data))
                } else {
                    OutcomeModel::Stored
                }
            },
        }
    }

    /// Storing a block that is taken keeps the invariant; only its piece can
    /// become whole by it.
    pub proof fn lemma_with_block(self, peer: u64, piece: u32, offset: u32, bytes: Seq<u8>)
        requires
            self.wf(),
            self.target(piece, offset, bytes) is Some,
        ensures
            ({
                let (p, b) = self.target(piece, offset, bytes).unwrap();
                let stored = self.with_block(peer, p, b, bytes);
                &&& self.is_block(p, b)
                &&& stored.wf()
                &&& forall|q: int| q != p ==> stored.is_complete(q) == self.is_complete(q)
            }),
    {
        let (p, b) = self.target(piece, offset, bytes).unwrap();
        let stored = self.with_block(peer, p, b, bytes);
        assert(self.piece_wf(p));
        assert(stored.pieces[p].blocks[b] is Received);
        assert forall|q: int| 0 <= q < stored.piece_count() implies #[trigger] stored.piece_wf(
            q,
        ) by {
            assert(self.piece_wf(q));
        }
    }

    /// A verdict on a whole piece keeps the invariant and leaves that piece
    /// no longer awaiting one.
    pub proof fn lemma_with_verdict(self, p: int, digest: Seq<u8>)
        requires
            self.wf(),
            self.is_complete(p),
        ensures
            self.with_verdict(p, digest).wf(),
            !self.with_verdict(p, digest).is_complete(p),
            forall|q: int|
                q != p ==> self.with_verdict(p, digest).is_complete(q) == self.is_complete(q),
            (forall|q: int| q != p ==> !self.is_complete(q)) ==> self.with_verdict(
                p,
                digest,
            ).settled(),
    {
        let after = self.with_verdict(p, digest);
        assert(self.piece_wf(p));
        assert forall|q: int| 0 <= q < after.piece_count() implies #[trigger] after.piece_wf(
            q,
        ) by {
            assert(self.piece_wf(q));
        }
        if forall|q: int| q != p ==> !self.is_complete(q) {
            assert forall|q: int| 0 <= q < after.piece_count() implies !after.is_complete(q) by {
                if q != p {
                    assert(!self.is_complete(q));
                }
            }
        }
    }
}

impl PieceManager {
    /// Stores a block that `peer` delivered, without judging its piece. A
    /// block is taken where its offset and length name a block of a piece
    /// that is not verified and the block has not arrived before; it need not
    /// have been requested. A block that is not taken changes nothing.
    pub fn place_block(&mut self, peer: u64, piece_index: u32, offset: u32, bytes: &[u8]) -> (out:
        Placement)
        requires
            old(self).wf(),
        ensures
            final(self).wf(),
            match old(self)@.target(piece_index, offset, bytes@) {
                None => out == Placement::Rejected && final(self)@ == old(self)@,
                Some((p, b)) => {
                    let stored = old(self)@.with_block(peer, p, b, bytes@);
                    &&& final(self)@ == stored
                    &&& out == (if stored.is_complete(p) {
                        Placement::Whole(p as usize)
                    } else {
                        Placement::Stored
                    })
                },
            },
    {
        let ghost before = self@;
        if bytes.len() > BLOCK_SIZE as usize {
            return Placement::Rejected;
        }
        let (p, b) = match self.locate(piece_index, offset, bytes.len() as u32) {
            Some(found) => found,
            None => {
                return Placement::Rejected;
            },
        };
        proof {
            assert(before.piece_wf(p as int));
            before.lemma_geometry(p as int);
        }
        match self.pieces[p].status {
            PieceStatus::Verified => {
                return Placement::Rejected;
            },
            _ => {},
        }
        match self.pieces[p].blocks[b] {
            BlockState::Received { .. } => {
                return Placement::Rejected;
            },
            _ => {},
        }
        proof {
            before.lemma_with_block(peer, piece_index, offset, bytes@);
        }
        let len = self.piece_len(p);
        match self.pieces[p].status {
            PieceStatus::Missing => {
                self.pieces[p].buffer = zero_bytes(len as usize);
            },
            _ => {},
        }
        write_at(&mut self.pieces[p].buffer, offset as usize, bytes);
        self.pieces[p].blocks[b] = BlockState::Received { peer };
        self.pieces[p].status = PieceStatus::InFlight;
        self.pieces[p].last_peer = peer;
        let whole = all_blocks_received(&self.pieces[p].blocks);
        proof {
            let want = before.with_block(peer, p as int, b as int, bytes@);
            assert(self@.pieces[p as int] == want.pieces[p as int]);
            assert(self@.pieces =~= want.pieces);
            assert(self@.hashes =~= want.hashes);
            assert(self@.file_lengths =~= want.file_lengths);
            assert(self@ == want);
        }
        if whole {
            Placement::Whole(p)
        } else {
            Placement::Stored
        }
    }

    /// Judges the whole piece `p` by `digest`, the SHA-1 digest of its
    /// buffer. Where `digest` is the piece's expected digest the piece is
    /// verified and its bytes are handed out with the writes that put them
    /// into the files; else the piece is missing again, its blocks free, and
    /// the corruption counters go up.
    pub fn settle_piece(&mut self, p: usize, digest: &[u8]) -> (out: SubmitOutcome)
        requires
            old(self).wf(),
            old(self)@.is_complete(p as int),
        ensures
            final(self).wf(),
            final(self)@ == old(self)@.with_verdict(p as int, digest@),
            out@ == old(self)@.verdict_outcome(p as int, digest@),
            (forall|q: int| q != p ==> !old(self)@.is_complete(q)) ==> final(self)@.settled(),
    {
        let ghost before = self@;
        proof {
            assert(before.piece_wf(p as int));
            before.lemma_geometry(p as int);
            before.lemma_with_verdict(p as int, digest@);
        }
        let len = self.piece_len(p);
        if bytes_equal(digest, self.hashes[p].as_slice()) {
            let mut data: Vec<u8> = Vec::new();
            core::mem::swap(&mut data, &mut self.pieces[p].buffer);
            self.pieces[p].status = PieceStatus::Verified;
            assert(p * self.piece_length <= 0xffff_ffff * 0xffff_ffff) by (nonlinear_arith)
                requires
                    0 <= p <= 0xffff_ffff,
                    0 <= self.piece_length <= 0xffff_ffff,
            ;
            assert(p * self.piece_length + len <= before.content_length()) by (nonlinear_arith)
                requires
                    0 <= p < before.piece_count(),
                    self.piece_length == before.piece_length,
                    len == before.piece_len(p as int),
                    0 < before.last_piece_length <= before.piece_length,
                    before.content_length() == (before.piece_count() - 1) * before.piece_length
                        + before.last_piece_length,
                    before.piece_len(p as int) == (if p == before.piece_count() - 1 {
                        before.last_piece_length
                    } else {
                        before.piece_length
                    }),
            ;
            let start: u64 = (p as u64) * (self.piece_length as u64);
            assert(nat_lengths(self.file_lengths@) =~= before.file_lengths);
            let writes = map_to_files(&self.file_lengths, start, len as u64);
            proof {
                let want = before.with_verdict(p as int, digest@);
                assert(self@.pieces[p as int].data =~= want.pieces[p as int].data);
                assert(self@.pieces[p as int] == want.pieces[p as int]);
                assert(self@.pieces =~= want.pieces);
                assert(self@.hashes =~= want.hashes);
                assert(self@.file_lengths =~= want.file_lengths);
                assert(self@ == want);
            }
            SubmitOutcome::Completed { piece: p as u32, data, writes }
        } else {
            let suspect = self.pieces[p].last_peer;
            let failures: u32 = if self.pieces[p].failures < u32::MAX {
                self.pieces[p].failures + 1
            } else {
                self.pieces[p].failures
            };
            let ban = if failures >= BAN_THRESHOLD {
                sole_source_of(&self.pieces[p].blocks)
            } else {
                None
            };
            self.pieces[p].blocks = free_block_vec(block_count_of(len));
            self.pieces[p].buffer = Vec::new();
            self.pieces[p].status = PieceStatus::Missing;
            self.pieces[p].failures = failures;
            if self.corrupted < u64::MAX {
                self.corrupted = self.corrupted + 1;
            }
            proof {
                let want = before.with_verdict(p as int, digest@);
                assert(self@.pieces[p as int].data =~= want.pieces[p as int].data);
                assert(self@.pieces[p as int] == want.pieces[p as int]);
                assert(self@.pieces =~= want.pieces);
                assert(self@.hashes =~= want.hashes);
                assert(self@.file_lengths =~= want.file_lengths);
                assert(self@ == want);
            }
            SubmitOutcome::Corrupt { piece: p as u32, suspect, ban }
        }
    }

    /// Takes a block that `peer` delivered. The block is stored where it is
    /// taken (see `place_block`). Where it makes its piece whole, the piece's
    /// bytes are hashed and judged (see `settle_piece`): a match verifies the
    /// piece and hands its bytes out for storage, a mismatch makes the piece
    /// missing again.
    pub fn submit_block(&mut self, peer: u64, piece_index: u32, offset: u32, bytes: &[u8]) -> (out:
        SubmitOutcome)
        requires
            old(self).wf(),
            old(self)@.settled(),
        ensures
            final(self).wf(),
            final(self)@.settled(),
            final(self)@ == old(self)@.with_submit(peer, piece_index, offset, bytes@),
            out@ == old(self)@.submit_outcome(peer, piece_index, offset, bytes@),
    {
        let ghost before = self@;
        proof {
            if before.target(piece_index, offset, bytes@) is Some {
                before.lemma_with_block(peer, piece_index, offset, bytes@);
            }
        }
        match self.place_block(peer, piece_index, offset, bytes) {
            Placement::Rejected => SubmitOutcome::Rejected,
            Placement::Stored => {
                proof {
                    assert forall|q: int| 0 <= q < self@.piece_count() implies !self@.is_complete(
                        q,
                    ) by {
                        assert(!before.is_complete(q));
                    }
                }
                SubmitOutcome::Stored
            },
            Placement::Whole(p) => {
                let digest = sha1(self.pieces[p].buffer.as_slice());
                proof {
                    assert forall|q: int| q != p implies !self@.is_complete(q) by {
                        assert(!before.is_complete(q));
                    }
                }
                self.settle_piece(p, digest.as_slice())
            },
        }
    }
}

/// Whether block `j` is among the first `k` of `order`.
pub open spec fn sent(order: Seq<int>, k: int, j: int) -> bool {
    exists|i: int| 0 <= i < k && #[trigger] order[i] == j
}

impl ManagerModel {
    /// The bytes of block `b` of piece `p`, where `content` is the piece.
    pub open spec fn block_bytes(self, p: int, b: int, content: Seq<u8>) -> Seq<u8> {
        content.subrange(b * BLOCK_SIZE, b * BLOCK_SIZE + self.block_len(p, b))
    }

    /// Whether piece `p` is not verified and holds none of its blocks yet;
    /// its blocks may be requested or not.
    pub open spec fn awaits_all(self, p: int) -> bool {
        &&& !(self.pieces[p].status is Verified)
        &&& forall|j: int|
            0 <= j < self.pieces[p].blocks.len() ==> !(#[trigger] self.pieces[p].blocks[j] is Received)
    }

    /// Whether `order` names every block of piece `p` exactly once.
    pub open spec fn covers(self, p: int, order: Seq<int>) -> bool {
        &&& order.len() == self.block_count(p)
        &&& forall|i: int| 0 <= i < order.len() ==> 0 <= #[trigger] order[i] < self.block_count(p)
        &&& forall|i: int, j: int| 0 <= i < j < order.len() ==> order[i] != order[j]
        &&& forall|b: int| 0 <= b < self.block_count(p) ==> sent(order, order.len() as int, b)
    }

    /// The state after the first `k` blocks of `order` were handed in for
    /// piece `p`, block `order[i]` by peer `peers[i]`, each with its bytes of
    /// `content`.
    pub open spec fn after_blocks(
        self,
        peers: Seq<u64>,
        p: int,
        order: Seq<int>,
        content: Seq<u8>,
        k: int,
    ) -> ManagerModel
        decreases k,
    {
        if k <= 0 {
            self
        } else {
            let b = order[k - 1];
            self.after_blocks(peers, p, order, content, k - 1).with_submit(
                peers[k - 1],
                p as u32,
                (b * BLOCK_SIZE) as u32,
                self.block_bytes(p, b, content),
            )
        }
    }

    /// Whether `other` has the pieces laid out as `self` has, with the same
    /// digests.
    pub open spec fn same_layout(self, other: ManagerModel) -> bool {
        &&& other.piece_length == self.piece_length
        &&& other.last_piece_length == self.last_piece_length
        &&& other.hashes == self.hashes
        &&& other.file_lengths == self.file_lengths
    }

    /// While blocks of a piece that holds none yet are handed in, each once,
    /// and some are still to come: the piece is not verified, the blocks
    /// handed in are the ones received, the others are as they were, and the
    /// buffer holds the content where it was received.
    pub proof fn lemma_after_blocks(
        self,
        peers: Seq<u64>,
        p: int,
        order: Seq<int>,
        content: Seq<u8>,
        k: int,
    )
        requires
            self.wf(),
            self.settled(),
            0 <= p < self.piece_count(),
            self.awaits_all(p),
            self.covers(p, order),
            peers.len() == order.len(),
            content.len() == self.piece_len(p),
            0 <= k < order.len(),
        ensures
            ({
                let s = self.after_blocks(peers, p, order, content, k);
                &&& s.wf()
                &&& s.settled()
                &&& self.same_layout(s)
                &&& s.corrupted == self.corrupted
                &&& s.availability == self.availability
                &&& s.pieces[p].failures == self.pieces[p].failures
                &&& !(s.pieces[p].status is Verified)
                &&& forall|q: int| 0 <= q < self.piece_count() && q != p ==> s.pieces[q] == self.pieces[q]
                &&& forall|j: int|
                    0 <= j < self.block_count(p) ==> (#[trigger] s.pieces[p].blocks[j] is Received
                        <==> sent(order, k, j))
                &&& forall|j: int|
                    0 <= j < self.block_count(p) ==> (#[trigger] s.pieces[p].blocks[j] is Received
                        || s.pieces[p].blocks[j] == self.pieces[p].blocks[j])
                &&& forall|x: int|
                    0 <= x < self.piece_len(p) && s.pieces[p].blocks[x / (BLOCK_SIZE as int)] is Received
                        ==> #[trigger] s.pieces[p].data[x] == content[x]
            }),
        decreases k,
    {
        let n = order.len() as int;
        self.lemma_geometry(p);
        assert(self.piece_wf(p));
        if k > 0 {
            self.lemma_after_blocks(peers, p, order, content, k - 1);
            let prev = self.after_blocks(peers, p, order, content, k - 1);
            let b = order[k - 1];
            let bytes = self.block_bytes(p, b, content);
            let peer = peers[k - 1];
            assert(prev.piece_wf(p));
            assert(!sent(order, k - 1, b));
            assert(prev.block_at(p as u32, (b * BLOCK_SIZE) as u32, bytes.len() as u32) == Some(
                (p, b),
            ));
            assert(prev.target(p as u32, (b * BLOCK_SIZE) as u32, bytes) == Some((p, b)));
            prev.lemma_with_block(peer, p as u32, (b * BLOCK_SIZE) as u32, bytes);
            let stored = prev.with_block(peer, p, b, bytes);
            let rest = order[n - 1];
            assert(!sent(order, k - 1, rest));
            assert(!(stored.pieces[p].blocks[rest] is Received));
            assert(!stored.is_complete(p));
            let s = self.after_blocks(peers, p, order, content, k);
            assert(s == stored);
            assert forall|q: int| 0 <= q < s.piece_count() implies !s.is_complete(q) by {
                assert(!prev.is_complete(q));
            }
            assert forall|j: int| 0 <= j < self.block_count(p) implies (
            #[trigger] s.pieces[p].blocks[j] is Received <==> sent(order, k, j)) by {
                if j == b {
                    assert(order[k - 1] == j);
                } else {
                    assert(prev.pieces[p].blocks[j] is Received <==> sent(order, k - 1, j));
                    if sent(order, k - 1, j) {
                        let i = choose|i: int| 0 <= i < k - 1 && #[trigger] order[i] == j;
                        assert(0 <= i < k && order[i] == j);
                    }
                    if sent(order, k, j) {
                        let i = choose|i: int| 0 <= i < k && #[trigger] order[i] == j;
                        assert(0 <= i < k - 1 && order[i] == j);
                    }
                }
            }
            assert forall|j: int| 0 <= j < self.block_count(p) implies (
            #[trigger] s.pieces[p].blocks[j] is Received || s.pieces[p].blocks[j]
                == self.pieces[p].blocks[j]) by {
                assert(prev.pieces[p].blocks[j] is Received || prev.pieces[p].blocks[j]
                    == self.pieces[p].blocks[j]);
            }
            assert forall|x: int|
                0 <= x < self.piece_len(p) && s.pieces[p].blocks[x / (BLOCK_SIZE as int)] is Received implies #[trigger] s.pieces[p].data[x]
                == content[x] by {
                let j = x / (BLOCK_SIZE as int);
                if j != b {
                    assert(prev.pieces[p].blocks[j] is Received);
                    assert(!all_free(prev.pieces[p].blocks));
                    assert(prev.pieces[p].data[x] == content[x]);
                }
            }
        } else {
            assert forall|j: int| 0 <= j < self.block_count(p) implies !sent(order, 0, j) by {}
        }
    }

    /// Blocks that exactly cover a piece that holds none yet, requested or
    /// not, handed in in any order and by any peers, verify the piece where
    /// the content has the piece's digest, and at the last block only; with
    /// any other content of the piece's length the piece is missing again at
    /// the end, its buffer given up and the corruption counter one higher.
    pub proof fn lemma_covering_blocks_settle(
        self,
        peers: Seq<u64>,
        p: int,
        order: Seq<int>,
        content: Seq<u8>,
    )
        requires
            self.wf(),
            self.settled(),
            0 <= p < self.piece_count(),
            self.awaits_all(p),
            self.covers(p, order),
            peers.len() == order.len(),
            content.len() == self.piece_len(p),
        ensures
            ({
                let n = order.len() as int;
                let end = self.after_blocks(peers, p, order, content, n);
                &&& end.wf()
                &&& end.settled()
                &&& forall|k: int|
                    0 <= k < n ==> !(#[trigger] self.after_blocks(
                        peers,
                        p,
                        order,
                        content,
                        k,
                    ).pieces[p].status is Verified)
                &&& end.pieces[p].data.len() == 0
                &&& sha1_digest(content) == self.hashes[p] ==> {
                    &&& end.pieces[p].status is Verified
                    &&& end.corrupted == self.corrupted
                }
                &&& sha1_digest(content) != self.hashes[p] ==> {
                    &&& end.pieces[p].status is Missing
                    &&& all_free(end.pieces[p].blocks)
                    &&& end.corrupted == bump64(self.corrupted)
                    &&& end.pieces[p].failures == bump32(self.pieces[p].failures)
                }
            }),
    {
        let n = order.len() as int;
        self.lemma_geometry(p);
        assert(self.piece_wf(p));
        assert forall|k: int| 0 <= k < n implies !(#[trigger] self.after_blocks(
            peers,
            p,
            order,
            content,
            k,
        ).pieces[p].status is Verified) by {
            self.lemma_after_blocks(peers, p, order, content, k);
        }
        self.lemma_after_blocks(peers, p, order, content, n - 1);
        let prev = self.after_blocks(peers, p, order, content, n - 1);
        let b = order[n - 1];
        let bytes = self.block_bytes(p, b, content);
        let peer = peers[n - 1];
        assert(prev.piece_wf(p));
        assert(!sent(order, n - 1, b));
        assert(prev.block_at(p as u32, (b * BLOCK_SIZE) as u32, bytes.len() as u32) == Some(
            (p, b),
        ));
        assert(prev.target(p as u32, (b * BLOCK_SIZE) as u32, bytes) == Some((p, b)));
        prev.lemma_with_block(peer, p as u32, (b * BLOCK_SIZE) as u32, bytes);
        let stored = prev.with_block(peer, p, b, bytes);
        assert forall|j: int| 0 <= j < stored.pieces[p].blocks.len() implies #[trigger] stored.pieces[p].blocks[j] is Received by {
            if j != b {
                assert(sent(order, n, j));
                let i = choose|i: int| 0 <= i < n && #[trigger] order[i] == j;
                assert(0 <= i < n - 1 && order[i] == j);
                assert(sent(order, n - 1, j));
                assert(prev.pieces[p].blocks[j] is Received);
            }
        }
        assert(stored.is_complete(p));
        assert forall|x: int| 0 <= x < self.piece_len(p) implies stored.pieces[p].data[x]
            == content[x] by {
            let j = x / (BLOCK_SIZE as int);
            if j != b {
                assert(sent(order, n, j));
                let i = choose|i: int| 0 <= i < n && #[trigger] order[i] == j;
                assert(0 <= i < n - 1 && order[i] == j);
                assert(sent(order, n - 1, j));
                assert(prev.pieces[p].blocks[j] is Received);
                assert(!all_free(prev.pieces[p].blocks));
                assert(prev.pieces[p].data[x] == content[x]);
            }
        }
        assert(stored.pieces[p].data =~= content);
        let end = self.after_blocks(peers, p, order, content, n);
        assert(end == stored.with_verdict(p, sha1_digest(content)));
        assert forall|q: int| q != p implies !stored.is_complete(q) by {
            assert(!prev.is_complete(q));
        }
        stored.lemma_with_verdict(p, sha1_digest(content));
    }

    /// A verified piece stays verified: a block handed in for it is rejected
    /// and changes nothing.
    pub proof fn lemma_verified_is_final(self, peer: u64, piece: u32, offset: u32, bytes: Seq<u8>)
        requires
            piece < self.piece_count(),
            self.pieces[piece as int].status is Verified,
        ensures
            self.with_submit(peer, piece, offset, bytes) == self,
            self.submit_outcome(peer, piece, offset, bytes) is Rejected,
    {
    }

    /// Rarest first: of two candidates, the one that more peers hold, or
    /// that has the higher index among equally rare ones, is not the piece
    /// selected; and some piece is selected.
    pub proof fn lemma_rarest_first(self, bf: Seq<bool>, a: int, b: int)
        requires
            self.is_candidate(bf, a),
            self.is_candidate(bf, b),
            self.availability[a] < self.availability[b] || (self.availability[a]
                == self.availability[b] && a < b),
        ensures
            self.select(bf) is Some,
            self.select(bf) != Some(b),
            self.rarer(self.select(bf).unwrap(), a),
            self.next_request(bf) matches Some((p, _)) && p != b,
    {
        self.lemma_best_upto(bf, self.piece_count() as int);
        assert(self.is_candidate(bf, a));
    }

    /// The piece selected is a candidate that comes before every other
    /// candidate, and none is selected only where there is no candidate.
    pub proof fn lemma_select(self, bf: Seq<bool>)
        ensures
            match self.select(bf) {
                Some(best) => self.is_candidate(bf, best) && forall|q: int| #[trigger]
                    self.is_candidate(bf, q) ==> self.rarer(best, q),
                None => forall|q: int| !#[trigger] self.is_candidate(bf, q),
            },
    {
        self.lemma_best_upto(bf, self.piece_count() as int);
    }

    /// A block that was given back can be selected again, by any peer whose
    /// bitfield has its piece: the block is free, its piece is a candidate
    /// for that peer, and where that piece is the one selected, the block
    /// asked for is the released one or a free one before it.
    pub proof fn lemma_released_block_selectable(self, p: int, b: int, bf: Seq<bool>)
        requires
            self.wf(),
            self.releasable(p, b),
            p < bf.len(),
            bf[p],
        ensures
            ({
                let after = self.with_release(p, b);
                &&& after.pieces[p].blocks[b] is Free
                &&& after.is_candidate(bf, p)
                &&& after.next_request(bf) is Some
                &&& after.select(bf) == Some(p) ==> (after.next_request(bf) matches Some((q, c))
                    && q == p && c <= b && after.pieces[p].blocks[c] is Free)
            }),
    {
        let after = self.with_release(p, b);
        assert(self.piece_wf(p));
        assert(after.pieces[p].blocks[b] is Free);
        lemma_first_free(after.pieces[p].blocks, 0);
        lemma_has_free(after.pieces[p].blocks);
        after.lemma_select(bf);
        assert(after.is_candidate(bf, p));
    }
}

/// Whether a block was requested more than `timeout` before `now`.
pub open spec fn expired(state: BlockState, now: u64, timeout: u64) -> bool {
    state matches BlockState::Requested { at } && at + timeout < now
}

/// The blocks with every expired request made free.
pub open spec fn expire_blocks(blocks: Seq<BlockState>, now: u64, timeout: u64) -> Seq<BlockState> {
    Seq::new(
        blocks.len(),
        |i: int|
            if expired(blocks[i], now, timeout) {
                BlockState::Free
            } else {
                blocks[i]
            },
    )
}

/// A piece with every expired request made free; a piece left with no block
/// taken is missing again.
pub open spec fn expire_piece(piece: PieceModel, now: u64, timeout: u64) -> PieceModel {
    if !(piece.status is InFlight) {
        piece
    } else {
        let blocks = expire_blocks(piece.blocks, now, timeout);
        if all_free(blocks) {
            PieceModel { status: PieceStatus::Missing, blocks, data: Seq::empty(), ..piece }
        } else {
            PieceModel { blocks, ..piece }
        }
    }
}

impl ManagerModel {
    /// The state after every request older than `timeout` at time `now` was
    /// given up.
    pub open spec fn with_expiry(self, now: u64, timeout: u64) -> ManagerModel {
        ManagerModel {
            pieces: Seq::new(
                self.pieces.len(),
                |p: int| expire_piece(self.pieces[p], now, timeout),
            ),
            ..self
        }
    }

    /// Giving up old requests keeps the invariant.
    pub proof fn lemma_with_expiry(self, now: u64, timeout: u64)
        requires
            self.wf(),
        ensures
            self.with_expiry(now, timeout).wf(),
            self.settled() ==> self.with_expiry(now, timeout).settled(),
    {
        let after = self.with_expiry(now, timeout);
        assert forall|q: int| 0 <= q < after.piece_count() implies #[trigger] after.piece_wf(
            q,
        ) by {
            assert(self.piece_wf(q));
        }
        if self.settled() {
            assert forall|q: int| 0 <= q < after.piece_count() implies !after.is_complete(q) by {
                assert(!self.is_complete(q));
                assert(self.piece_wf(q));
                if after.is_complete(q) {
                    assert forall|b: int|
                        0 <= b < self.pieces[q].blocks.len() implies #[trigger] self.pieces[q].blocks[b] is Received by {
                        assert(after.pieces[q].blocks[b] is Received);
                    }
                }
            }
        }
    }

    /// The number of verified pieces among the first `n`.
    pub open spec fn verified_upto(self, n: int) -> nat
        decreases n,
    {
        if n <= 0 {
            0
        } else {
            self.verified_upto(n - 1) + if self.pieces[n - 1].status is Verified {
                1nat
            } else {
                0nat
            }
        }
    }

    /// The number of verified pieces.
    pub open spec fn verified_count(self) -> nat {
        self.verified_upto(self.piece_count() as int)
    }

    /// Whether every piece is verified.
    pub open spec fn finished(self) -> bool {
        forall|p: int| 0 <= p < self.piece_count() ==> (#[trigger] self.pieces[p]).status is Verified
    }

    /// No more pieces are verified than there are, and all of them are
    /// exactly where the download is finished.
    pub proof fn lemma_verified_upto(self, n: int)
        requires
            0 <= n <= self.piece_count(),
        ensures
            self.verified_upto(n) <= n,
            self.verified_upto(n) == n <==> forall|p: int|
                0 <= p < n ==> (#[trigger] self.pieces[p]).status is Verified,
        decreases n,
    {
        if n > 0 {
            self.lemma_verified_upto(n - 1);
        }
    }
}

/// Makes every expired request free.
fn expire_in(blocks: &mut Vec<BlockState>, now: u64, timeout: u64)
    ensures
        final(blocks)@ == expire_blocks(old(blocks)@, now, timeout),
{
    let ghost before = blocks@;
    let mut i: usize = 0;
    while i < blocks.len()
        invariant
            i <= blocks@.len(),
            blocks@.len() == before.len(),
            forall|k: int|
                0 <= k < i ==> #[trigger] blocks@[k] == expire_blocks(before, now, timeout)[k],
            forall|k: int| i <= k < blocks@.len() ==> #[trigger] blocks@[k] == before[k],
        decreases blocks@.len() - i,
    {
        match blocks[i] {
            BlockState::Requested { at } => {
                if now > timeout && at < now - timeout {
                    blocks[i] = BlockState::Free;
                }
            },
            _ => {},
        }
        i += 1;
    }
    assert(blocks@ =~= expire_blocks(before, now, timeout));
}

impl PieceManager {
    /// Gives up every request made more than `timeout` before `now`: those
    /// blocks count as lost and can be requested again, whoever was asked.
    pub fn expire(&mut self, now: u64, timeout: u64)
        requires
            old(self).wf(),
        ensures
            final(self).wf(),
            old(self)@.settled() ==> final(self)@.settled(),
            final(self)@ == old(self)@.with_expiry(now, timeout),
    {
        let ghost before = self@;
        let ghost want = before.with_expiry(now, timeout);
        let mut p: usize = 0;
        while p < self.pieces.len()
            invariant
                p <= self.pieces@.len(),
                self.pieces@.len() == before.pieces.len(),
                want == before.with_expiry(now, timeout),
                self@ == (ManagerModel { pieces: self@.pieces, ..before }),
                forall|k: int| 0 <= k < p ==> #[trigger] self@.pieces[k] == want.pieces[k],
                forall|k: int|
                    p <= k < self.pieces@.len() ==> #[trigger] self@.pieces[k] == before.pieces[k],
            decreases self.pieces@.len() - p,
        {
            let ghost prev = self@;
            let ghost prev_pieces = self.pieces@;
            assert(prev.pieces[p as int] == before.pieces[p as int]);
            match self.pieces[p].status {
                PieceStatus::InFlight => {
                    expire_in(&mut self.pieces[p].blocks, now, timeout);
                    if all_blocks_free(&self.pieces[p].blocks) {
                        self.pieces[p].status = PieceStatus::Missing;
                        self.pieces[p].buffer = Vec::new();
                    }
                    assert(self.pieces@[p as int]@.data =~= want.pieces[p as int].data);
                    assert(self.pieces@[p as int]@ == want.pieces[p as int]);
                },
                _ => {},
            }
            assert(self.pieces@.len() == prev_pieces.len());
            assert(forall|k: int|
                0 <= k < self.pieces@.len() && k != p ==> self.pieces@[k] == prev_pieces[k]);
            assert(self@.pieces[p as int] == want.pieces[p as int]);
            assert forall|k: int| 0 <= k < self.pieces@.len() && k != p implies #[trigger] self@.pieces[k]
                == prev.pieces[k] by {
                assert(self.pieces@[k] == prev_pieces[k]);
            }
            assert(self@.hashes =~= before.hashes);
            assert(self@.file_lengths =~= before.file_lengths);
            p += 1;
        }
        proof {
            assert(self@.pieces =~= want.pieces);
            before.lemma_with_expiry(now, timeout);
        }
    }

    /// The number of verified pieces.
    pub fn verified_count(&self) -> (n: usize)
        requires
            self.wf(),
        ensures
            n == self@.verified_count(),
    {
        let mut n: usize = 0;
        let mut p: usize = 0;
        while p < self.pieces.len()
            invariant
                self.wf(),
                p <= self.pieces@.len(),
                n == self@.verified_upto(p as int),
                n <= p,
            decreases self.pieces@.len() - p,
        {
            match self.pieces[p].status {
                PieceStatus::Verified => {
                    n += 1;
                },
                _ => {},
            }
            p += 1;
        }
        n
    }

    /// Whether every piece is verified.
    pub fn is_finished(&self) -> (done: bool)
        requires
            self.wf(),
        ensures
            done == self@.finished(),
    {
        proof {
            self@.lemma_verified_upto(self@.piece_count() as int);
        }
        self.verified_count() == self.pieces.len()
    }

    /// The state of the block at `offset` of piece `p`, if there is one.
    pub fn block_state(&self, piece_index: u32, offset: u32) -> (out: Option<BlockState>)
        requires
            self.wf(),
        ensures
            out == (if piece_index < self@.piece_count() && offset as int % (BLOCK_SIZE as int) == 0
                && offset as int / (BLOCK_SIZE as int) < self@.block_count(piece_index as int) {
                Some(
                    self@.pieces[piece_index as int].blocks[offset as int / (BLOCK_SIZE as int)],
                )
            } else {
                None
            }),
    {
        let p = piece_index as usize;
        if p >= self.pieces.len() || offset % BLOCK_SIZE != 0 {
            return None;
        }
        let b = (offset / BLOCK_SIZE) as usize;
        assert(self@.piece_wf(p as int));
        if b >= self.pieces[p].blocks.len() {
            return None;
        }
        Some(self.pieces[p].blocks[b])
    }
}

/// The number of bytes that a list of writes carries.
pub open spec fn written(writes: Seq<WriteModel>) -> int
    decreases writes.len(),
{
    if writes.len() == 0 {
        0
    } else {
        written(writes.drop_last()) + writes.last().length
    }
}

/// The bytes of the range `start .. start + len` that lie in the first `n`
/// files.
pub open spec fn covered(lengths: Seq<nat>, start: int, len: int, n: int) -> int {
    let end = if start + len < sum_to(lengths, n) {
        start + len
    } else {
        sum_to(lengths, n) as int
    };
    if end > start {
        end - start
    } else {
        0
    }
}

/// The writes to the first `n` files carry the bytes of the range that lie
/// in those files, one after the other and each within its file.
pub proof fn lemma_writes_upto(lengths: Seq<nat>, start: int, len: int, n: int)
    requires
        0 <= start,
        0 <= len,
        0 <= n <= lengths.len(),
    ensures
        written(writes_upto(lengths, start, len, n)) == covered(lengths, start, len, n),
        forall|i: int|
            0 <= i < writes_upto(lengths, start, len, n).len() ==> {
                let w = #[trigger] writes_upto(lengths, start, len, n)[i];
                &&& 0 <= w.file < n
                &&& 0 < w.length
                &&& 0 <= w.file_offset
                &&& w.file_offset + w.length <= lengths[w.file]
                &&& 0 <= w.data_offset
                &&& w.data_offset + w.length <= len
            },
    decreases n,
{
    if n > 0 {
        lemma_writes_upto(lengths, start, len, n - 1);
        let before = writes_upto(lengths, start, len, n - 1);
        let after = writes_upto(lengths, start, len, n);
        if after.len() > before.len() {
            assert(after.drop_last() =~= before);
        }
    }
}

/// The writes of a range that lies in the content carry every byte of the
/// range.
pub proof fn lemma_writes_cover(lengths: Seq<nat>, start: int, len: int)
    requires
        0 <= start,
        0 <= len,
        start + len <= total_of(lengths),
    ensures
        written(file_writes(lengths, start, len)) == len,
{
    lemma_writes_upto(lengths, start, len, lengths.len() as int);
}

impl ManagerModel {
    /// A request that has expired can be made again, by any peer whose
    /// bitfield has its piece: after the expiry the block is free and its
    /// piece is a candidate for that peer.
    pub proof fn lemma_expired_block_selectable(
        self,
        p: int,
        b: int,
        now: u64,
        timeout: u64,
        bf: Seq<bool>,
    )
        requires
            self.wf(),
            self.is_block(p, b),
            self.pieces[p].status is InFlight,
            expired(self.pieces[p].blocks[b], now, timeout),
            p < bf.len(),
            bf[p],
        ensures
            ({
                let after = self.with_expiry(now, timeout);
                &&& after.pieces[p].blocks[b] is Free
                &&& after.is_candidate(bf, p)
                &&& after.next_request(bf) is Some
            }),
    {
        let after = self.with_expiry(now, timeout);
        assert(self.piece_wf(p));
        assert(expire_blocks(self.pieces[p].blocks, now, timeout)[b] is Free);
        assert(after.pieces[p].blocks[b] is Free);
        lemma_has_free(after.pieces[p].blocks);
        after.lemma_select(bf);
        assert(after.is_candidate(bf, p));
    }
}

} // verus!
