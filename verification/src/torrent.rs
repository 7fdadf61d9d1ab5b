//! The torrent descriptor and the metadata model derived from it.

use crate::error::EngineError;
use crate::hashing::{sha1, sha1_digest, DIGEST_LEN};
use crate::tracker::http::HttpTrackerResponse;
use vstd::prelude::*;

verus! {

/// A DHT node entry of a descriptor: host and port.
#[derive(Clone, Debug)]
pub struct Node(pub String, pub i64);

/// One file of a multi-file torrent.
#[derive(Clone, Debug)]
pub struct File {
    pub path: Vec<String>,
    pub length: i64,
    pub md5sum: Option<String>,
    pub tracker_response_list: Option<Vec<HttpTrackerResponse>>,
}

impl File {
    /// Replaces the tracker responses kept with this file.
    pub fn set_tracker_response_list(&mut self, l: Option<Vec<HttpTrackerResponse>>)
        ensures
            *final(self) == (File { tracker_response_list: l, ..*old(self) }),
    {
        self.tracker_response_list = l;
    }
}

/// The info dictionary of a descriptor.
#[derive(Clone, Debug)]
pub struct Info {
    pub name: String,
    pub pieces: Vec<u8>,
    pub piece_length: i64,
    pub md5sum: Option<String>,
    pub length: Option<i64>,
    pub files: Option<Vec<File>>,
    pub private: Option<u8>,
    pub path: Option<Vec<String>>,
    pub root_hash: Option<String>,
    pub tracker_response_list: Option<Vec<HttpTrackerResponse>>,
}

impl Info {
    /// Replaces the tracker responses kept with this dictionary.
    pub fn set_tracker_response_list(&mut self, l: Option<Vec<HttpTrackerResponse>>)
        ensures
            *final(self) == (Info { tracker_response_list: l, ..*old(self) }),
    {
        self.tracker_response_list = l;
    }

    /// Replaces the file list.
    pub fn set_files(&mut self, files: Vec<File>)
        ensures
            *final(self) == (Info { files: Some(files), ..*old(self) }),
    {
        self.files = Some(files);
    }
}

/// A decoded torrent descriptor.
#[derive(Clone, Debug)]
pub struct Torrent {
    pub info: Info,
    pub announce: Option<String>,
    pub nodes: Option<Vec<Node>>,
    pub encoding: Option<String>,
    pub httpseeds: Option<Vec<String>>,
    pub announce_list: Option<Vec<Vec<String>>>,
    pub creation_date: Option<i64>,
    pub comment: Option<String>,
    pub created_by: Option<String>,
}

/// One file of the content: where it is stored, and how long it is.
#[derive(Clone, Debug)]
pub struct FileEntry {
    pub path: Vec<String>,
    pub length: u64,
}

/// What a `FileEntry` stands for.
pub struct FileModel {
    pub path: Seq<Seq<char>>,
    pub length: nat,
}

impl View for FileEntry {
    type V = FileModel;

    open spec fn view(&self) -> FileModel {
        FileModel { path: texts(self.path@), length: self.length as nat }
    }
}

/// The texts of a sequence of strings.
pub open spec fn texts(v: Seq<String>) -> Seq<Seq<char>> {
    Seq::new(v.len(), |i: int| v[i]@)
}

/// The tiers of a list of lists of URLs.
pub open spec fn tiers_of(v: Seq<Vec<String>>) -> Seq<Seq<Seq<char>>> {
    Seq::new(v.len(), |i: int| texts(v[i]@))
}

/// The sum of the lengths `lengths[0..n]`.
pub open spec fn sum_to(lengths: Seq<nat>, n: int) -> nat
    decreases n,
{
    if n <= 0 {
        0
    } else {
        sum_to(lengths, n - 1) + lengths[n - 1]
    }
}

/// The sum of all of `lengths`.
pub open spec fn total_of(lengths: Seq<nat>) -> nat {
    sum_to(lengths, lengths.len() as int)
}

/// The `i`-th run of twenty bytes of `pieces`.
pub open spec fn hash_at(pieces: Seq<u8>, i: int) -> Seq<u8> {
    pieces.subrange(20 * i, 20 * i + 20)
}

/// Whether `count` pieces of `piece_length` bytes, the last one possibly
/// shorter but not empty, hold exactly `total` bytes.
pub open spec fn pieces_tile(total: nat, piece_length: nat, count: nat) -> bool {
    (count - 1) * piece_length < total <= count * piece_length
}

/// The mathematical content of a `TorrentMetadata`.
pub struct MetadataModel {
    pub info_hash: Seq<u8>,
    pub name: Seq<char>,
    pub piece_length: nat,
    pub piece_hashes: Seq<Seq<u8>>,
    pub files: Seq<FileModel>,
    pub total_length: nat,
    pub announce_tiers: Seq<Seq<Seq<char>>>,
}

impl MetadataModel {
    pub open spec fn piece_count(self) -> nat {
        self.piece_hashes.len()
    }

    pub open spec fn file_lengths(self) -> Seq<nat> {
        Seq::new(self.files.len(), |i: int| self.files[i].length)
    }

    /// The length of the last piece, which may be shorter than the others.
    pub open spec fn last_piece_length(self) -> nat {
        if self.piece_count() == 0 {
            0
        } else {
            (self.total_length - (self.piece_count() - 1) * self.piece_length) as nat
        }
    }

    /// The length of piece `i`.
    pub open spec fn piece_len(self, i: int) -> nat {
        if i == self.piece_count() - 1 {
            self.last_piece_length()
        } else {
            self.piece_length
        }
    }

    /// The invariant of the metadata model: the pieces tile the content, the
    /// last one possibly short, and there is one digest per piece.
    pub open spec fn wf(self) -> bool {
        &&& self.info_hash.len() == DIGEST_LEN
        &&& 0 < self.piece_length <= u32::MAX
        &&& self.piece_count() <= u32::MAX
        &&& forall|i: int|
            0 <= i < self.piece_hashes.len() ==> (#[trigger] self.piece_hashes[i]).len()
                == DIGEST_LEN
        &&& self.total_length == total_of(self.file_lengths())
        &&& self.total_length <= u64::MAX
        &&& pieces_tile(self.total_length, self.piece_length, self.piece_count())
    }

    /// In a well-formed model every piece holds at least one byte and at most
    /// `piece_length`, and no content comes without pieces.
    pub proof fn lemma_piece_len_bounds(self, i: int)
        requires
            self.wf(),
            0 <= i < self.piece_count(),
        ensures
            0 < self.piece_len(i) <= self.piece_length,
            self.total_length == (self.piece_count() - 1) * self.piece_length
                + self.last_piece_length(),
            self.total_length > 0,
    {
        let count = self.piece_count() as int;
        let pl = self.piece_length as int;
        let total = self.total_length as int;
        assert(0 < total - (count - 1) * pl <= pl && total > 0) by (nonlinear_arith)
            requires
                (count - 1) * pl < total <= count * pl,
                count >= 1,
                pl > 0,
        ;
    }
}

/// The files that a descriptor's info dictionary lists: its `files`, or the
/// single file named by `name` and `length`.
pub open spec fn descriptor_files(info: Info) -> Seq<FileModel> {
    match info.files {
        Some(files) => Seq::new(
            files@.len(),
            |i: int| FileModel { path: texts(files@[i].path@), length: files@[i].length as nat },
        ),
        None => seq![FileModel { path: seq![info.name@], length: info.length.unwrap() as nat }],
    }
}

/// Whether the info dictionary names its content, with no negative length.
pub open spec fn descriptor_lengths_ok(info: Info) -> bool {
    match info.files {
        Some(files) => forall|i: int| 0 <= i < files@.len() ==> (#[trigger] files@[i]).length >= 0,
        None => info.length is Some && info.length.unwrap() >= 0,
    }
}

/// The lengths of a list of files.
pub open spec fn lengths_of(files: Seq<FileModel>) -> Seq<nat> {
    Seq::new(files.len(), |i: int| files[i].length)
}

/// The announce tiers of a descriptor: its `announce-list` where that holds a
/// tier, else the one tier of its `announce` URL, else none.
pub open spec fn descriptor_tiers(t: Torrent) -> Seq<Seq<Seq<char>>> {
    if t.announce_list is Some && t.announce_list.unwrap()@.len() > 0 {
        tiers_of(t.announce_list.unwrap()@)
    } else if t.announce is Some {
        seq![seq![t.announce.unwrap()@]]
    } else {
        Seq::empty()
    }
}

/// Whether a descriptor describes a torrent: the piece digests are whole, the
/// piece length is positive and fits the wire format's 32 bits, content is
/// named with no negative length, and the digests are as many as the pieces
/// that tile the content.
pub open spec fn descriptor_ok(t: Torrent) -> bool {
    let total = total_of(lengths_of(descriptor_files(t.info)));
    &&& t.info.pieces@.len() % 20 == 0
    &&& 0 < t.info.piece_length <= u32::MAX
    &&& descriptor_lengths_ok(t.info)
    &&& total <= u64::MAX
    &&& t.info.pieces@.len() / 20 <= u32::MAX
    &&& pieces_tile(total, t.info.piece_length as nat, (t.info.pieces@.len() / 20) as nat)
}

/// The metadata that a descriptor and the encoded bytes of its info
/// dictionary stand for.
pub open spec fn metadata_of(t: Torrent, info_bytes: Seq<u8>) -> MetadataModel {
    let files = descriptor_files(t.info);
    MetadataModel {
        info_hash: sha1_digest(info_bytes),
        name: t.info.name@,
        piece_length: t.info.piece_length as nat,
        piece_hashes: Seq::new(
            (t.info.pieces@.len() / 20) as nat,
            |i: int| hash_at(t.info.pieces@, i),
        ),
        files,
        total_length: total_of(lengths_of(files)),
        announce_tiers: descriptor_tiers(t),
    }
}

/// The info hash is a function of the encoded bytes of the info dictionary
/// alone: descriptors with the same bytes there have the same info hash,
/// however often they are parsed and whatever else they hold.
pub proof fn lemma_info_hash_stable(a: Torrent, a_bytes: Seq<u8>, b: Torrent, b_bytes: Seq<u8>)
    requires
        a_bytes == b_bytes,
    ensures
        metadata_of(a, a_bytes).info_hash == metadata_of(b, b_bytes).info_hash,
        metadata_of(a, a_bytes).info_hash == sha1_digest(a_bytes),
{
}

/// Copies a byte string.
pub fn copy_bytes(src: &[u8]) -> (out: Vec<u8>)
    ensures
        out@ == src@,
{
    let mut out: Vec<u8> = Vec::new();
    let mut i: usize = 0;
    while i < src.len()
        invariant
            i <= src@.len(),
            out@ == src@.subrange(0, i as int),
        decreases src@.len() - i,
    {
        out.push(src[i]);
        i += 1;
        assert(out@ =~= src@.subrange(0, i as int));
    }
    assert(out@ =~= src@);
    out
}

/// Copies a list of strings.
pub fn copy_texts(src: &Vec<String>) -> (out: Vec<String>)
    ensures
        texts(out@) == texts(src@),
{
    let mut out: Vec<String> = Vec::new();
    let mut i: usize = 0;
    while i < src.len()
        invariant
            i <= src@.len(),
            out@.len() == i,
            forall|k: int| 0 <= k < i ==> (#[trigger] out@[k])@ == src@[k]@,
        decreases src@.len() - i,
    {
        out.push(src[i].clone());
        i += 1;
    }
    assert(texts(out@) =~= texts(src@));
    out
}

/// Copies a list of tiers.
pub fn copy_tiers(src: &Vec<Vec<String>>) -> (out: Vec<Vec<String>>)
    ensures
        tiers_of(out@) == tiers_of(src@),
{
    let mut out: Vec<Vec<String>> = Vec::new();
    let mut i: usize = 0;
    while i < src.len()
        invariant
            i <= src@.len(),
            out@.len() == i,
            forall|k: int| 0 <= k < i ==> texts((#[trigger] out@[k])@) == texts(src@[k]@),
        decreases src@.len() - i,
    {
        out.push(copy_texts(&src[i]));
        i += 1;
    }
    assert(tiers_of(out@) =~= tiers_of(src@));
    out
}

/// Cuts concatenated digests into one digest per piece; `None` where the
/// bytes are not a whole number of digests.
pub fn split_hashes(pieces: &[u8]) -> (out: Option<Vec<Vec<u8>>>)
    ensures
        out is Some <==> pieces@.len() % 20 == 0,
        out matches Some(hashes) ==> {
            &&& hashes@.len() == pieces@.len() / 20
            &&& forall|i: int|
                0 <= i < hashes@.len() ==> (#[trigger] hashes@[i])@ == hash_at(pieces@, i)
        },
{
    if pieces.len() % 20 != 0 {
        return None;
    }
    let count: usize = pieces.len() / 20;
    let mut hashes: Vec<Vec<u8>> = Vec::new();
    let mut i: usize = 0;
    while i < count
        invariant
            20 * count == pieces@.len(),
            pieces@.len() <= usize::MAX,
            i <= count,
            hashes@.len() == i,
            forall|k: int| 0 <= k < i ==> (#[trigger] hashes@[k])@ == hash_at(pieces@, k),
        decreases count - i,
    {
        let mut hash: Vec<u8> = Vec::new();
        let mut j: usize = 0;
        while j < 20
            invariant
                20 * count == pieces@.len(),
                pieces@.len() <= usize::MAX,
                i < count,
                j <= 20,
                hash@ == pieces@.subrange(20 * i, 20 * i + j),
            decreases 20 - j,
        {
            hash.push(pieces[20 * i + j]);
            j += 1;
            assert(hash@ =~= pieces@.subrange(20 * i, 20 * i + j));
        }
        hashes.push(hash);
        i += 1;
    }
    Some(hashes)
}

/// The lengths of a list of file entries.
pub open spec fn entry_lengths(files: Seq<FileEntry>) -> Seq<nat> {
    Seq::new(files.len(), |i: int| files[i].length as nat)
}

/// The models of a list of file entries.
pub open spec fn entry_models(files: Seq<FileEntry>) -> Seq<FileModel> {
    Seq::new(files.len(), |i: int| files[i]@)
}

/// A partial sum of lengths is no more than a later one.
pub proof fn lemma_sum_to_monotone(lengths: Seq<nat>, a: int, b: int)
    requires
        a <= b,
    ensures
        sum_to(lengths, a) <= sum_to(lengths, b),
    decreases b - a,
{
    if a < b {
        lemma_sum_to_monotone(lengths, a, b - 1);
    }
}

/// The sum of the lengths of `files`; `None` where it does not fit 64 bits.
pub fn sum_lengths(files: &Vec<FileEntry>) -> (out: Option<u64>)
    ensures
        match out {
            Some(total) => total == total_of(entry_lengths(files@)),
            None => total_of(entry_lengths(files@)) > u64::MAX,
        },
{
    let ghost lengths = entry_lengths(files@);
    let mut total: u64 = 0;
    let mut i: usize = 0;
    while i < files.len()
        invariant
            i <= files@.len(),
            lengths == entry_lengths(files@),
            total == sum_to(lengths, i as int),
        decreases files@.len() - i,
    {
        match total.checked_add(files[i].length) {
            Some(next) => {
                total = next;
            },
            None => {
                proof {
                    lemma_sum_to_monotone(lengths, i + 1, lengths.len() as int);
                }
                return None;
            },
        }
        i += 1;
    }
    Some(total)
}

/// The immutable description of a torrent: the digest that names it, its
/// pieces and their digests, its files, and the tiers of trackers to ask.
pub struct TorrentMetadata {
    info_hash: Vec<u8>,
    name: String,
    piece_length: u32,
    piece_hashes: Vec<Vec<u8>>,
    files: Vec<FileEntry>,
    total_length: u64,
    announce_tiers: Vec<Vec<String>>,
}

impl View for TorrentMetadata {
    type V = MetadataModel;

    closed spec fn view(&self) -> MetadataModel {
        MetadataModel {
            info_hash: self.info_hash@,
            name: self.name@,
            piece_length: self.piece_length as nat,
            piece_hashes: Seq::new(self.piece_hashes@.len(), |i: int| self.piece_hashes@[i]@),
            files: entry_models(self.files@),
            total_length: self.total_length as nat,
            announce_tiers: tiers_of(self.announce_tiers@),
        }
    }
}

/// The files of an info dictionary as entries; `None` where it names no
/// content or a length is negative.
pub fn collect_files(info: &Info) -> (out: Option<Vec<FileEntry>>)
    ensures
        out is Some <==> descriptor_lengths_ok(*info),
        out matches Some(files) ==> entry_models(files@) == descriptor_files(*info),
{
    match &info.files {
        Some(listed) => {
            let mut files: Vec<FileEntry> = Vec::new();
            let mut i: usize = 0;
            while i < listed.len()
                invariant
                    info.files == Some(*listed),
                    i <= listed@.len(),
                    files@.len() == i,
                    forall|k: int| 0 <= k < i ==> (#[trigger] listed@[k]).length >= 0,
                    forall|k: int|
                        0 <= k < i ==> (#[trigger] files@[k])@ == (FileModel {
                            path: texts(listed@[k].path@),
                            length: listed@[k].length as nat,
                        }),
                decreases listed@.len() - i,
            {
                if listed[i].length < 0 {
                    assert(listed@[i as int].length < 0);
                    return None;
                }
                files.push(
                    FileEntry { path: copy_texts(&listed[i].path), length: listed[i].length as u64 },
                );
                i += 1;
            }
            assert(entry_models(files@) =~= descriptor_files(*info));
            Some(files)
        },
        None => {
            match info.length {
                Some(length) => {
                    if length < 0 {
                        return None;
                    }
                    let mut path: Vec<String> = Vec::new();
                    path.push(info.name.clone());
                    let mut files: Vec<FileEntry> = Vec::new();
                    files.push(FileEntry { path, length: length as u64 });
                    assert(texts(files@[0].path@) =~= seq![info.name@]);
                    assert(entry_models(files@) =~= descriptor_files(*info));
                    Some(files)
                },
                None => None,
            }
        },
    }
}

/// The announce tiers of a descriptor.
pub fn collect_tiers(t: &Torrent) -> (out: Vec<Vec<String>>)
    ensures
        tiers_of(out@) == descriptor_tiers(*t),
{
    match &t.announce_list {
        Some(list) => {
            if list.len() > 0 {
                return copy_tiers(list);
            }
        },
        None => {},
    }
    let mut tiers: Vec<Vec<String>> = Vec::new();
    match &t.announce {
        Some(url) => {
            let mut tier: Vec<String> = Vec::new();
            tier.push(url.clone());
            tiers.push(tier);
            assert(texts(tiers@[0]@) =~= seq![url@]);
            assert(tiers_of(tiers@) =~= seq![seq![url@]]);
        },
        None => {
            assert(tiers_of(tiers@) =~= Seq::<Seq<Seq<char>>>::empty());
        },
    }
    tiers
}

/// The info hash of a torrent: the SHA-1 digest of the encoded bytes of its
/// info dictionary. Equal bytes give equal digests, whatever was decoded from
/// them.
pub fn info_hash(info_bytes: &[u8]) -> (out: Vec<u8>)
    ensures
        out@ == sha1_digest(info_bytes@),
        out@.len() == DIGEST_LEN,
{
    sha1(info_bytes)
}

impl TorrentMetadata {
    /// The invariant of the metadata.
    pub open spec fn wf(&self) -> bool {
        self@.wf()
    }

    /// Builds the metadata of a decoded descriptor. `info_bytes` are the
    /// encoded bytes of its info dictionary, which the info hash is taken
    /// over. A descriptor that does not describe a torrent is rejected as
    /// malformed, and no other.
    pub fn from_descriptor(t: &Torrent, info_bytes: &[u8]) -> (out: Result<
        TorrentMetadata,
        EngineError,
    >)
        ensures
            out is Ok <==> descriptor_ok(*t),
            out matches Ok(meta) ==> meta.wf() && meta@ == metadata_of(*t, info_bytes@),
            out matches Err(e) ==> e == EngineError::MalformedMetadata,
    {
        let hashes = match split_hashes(t.info.pieces.as_slice()) {
            Some(hashes) => hashes,
            None => {
                return Err(EngineError::MalformedMetadata);
            },
        };
        if t.info.piece_length <= 0 || t.info.piece_length > 0xffff_ffff {
            return Err(EngineError::MalformedMetadata);
        }
        let piece_length: u32 = t.info.piece_length as u32;
        let files = match collect_files(&t.info) {
            Some(files) => files,
            None => {
                return Err(EngineError::MalformedMetadata);
            },
        };
        assert(entry_lengths(files@) =~= lengths_of(descriptor_files(t.info)));
        let total_length = match sum_lengths(&files) {
            Some(total) => total,
            None => {
                return Err(EngineError::MalformedMetadata);
            },
        };
        if hashes.len() > 0xffff_ffff {
            return Err(EngineError::MalformedMetadata);
        }
        let count: u64 = hashes.len() as u64;
        let ghost tiled = pieces_tile(total_length as nat, piece_length as nat, count as nat);
        assert(count * piece_length <= 0xffff_ffff * 0xffff_ffff) by (nonlinear_arith)
            requires
                0 <= count <= 0xffff_ffff,
                0 <= piece_length <= 0xffff_ffff,
        ;
        if count == 0 {
            if total_length != 0 {
                assert(!tiled) by (nonlinear_arith)
                    requires
                        count == 0,
                        total_length > 0,
                        tiled == ((count - 1) * piece_length < total_length <= count
                            * piece_length),
                ;
                return Err(EngineError::MalformedMetadata);
            }
            assert(tiled) by (nonlinear_arith)
                requires
                    count == 0,
                    total_length == 0,
                    piece_length > 0,
                    tiled == ((count - 1) * piece_length < total_length <= count * piece_length),
            ;
        } else {
            assert((count - 1) * piece_length <= count * piece_length) by (nonlinear_arith)
                requires
                    count >= 1,
                    piece_length >= 0,
            ;
            if !((count - 1) * (piece_length as u64) < total_length && total_length <= count * (
            piece_length as u64)) {
                return Err(EngineError::MalformedMetadata);
            }
        }
        let announce_tiers = collect_tiers(t);
        let meta = TorrentMetadata {
            info_hash: sha1(info_bytes),
            name: t.info.name.clone(),
            piece_length,
            piece_hashes: hashes,
            files,
            total_length,
            announce_tiers,
        };
        proof {
            let want = metadata_of(*t, info_bytes@);
            assert(meta@.piece_hashes =~= want.piece_hashes);
            assert(meta@.files =~= want.files);
            assert(meta@.file_lengths() =~= entry_lengths(meta.files@));
            assert(meta@.announce_tiers == want.announce_tiers);
            assert(meta@ == want);
            assert(tiled);
            assert forall|i: int| 0 <= i < meta@.piece_hashes.len() implies (
            #[trigger] meta@.piece_hashes[i]).len() == DIGEST_LEN by {
                assert(20 * i + 20 <= t.info.pieces@.len());
            }
        }
        Ok(meta)
    }

    /// The digest that names the torrent.
    pub fn info_hash(&self) -> (out: &Vec<u8>)
        ensures
            out@ == self@.info_hash,
    {
        &self.info_hash
    }

    /// The name of the content.
    pub fn name(&self) -> (out: &String)
        ensures
            out@ == self@.name,
    {
        &self.name
    }

    /// Bytes per piece; the last piece may be shorter.
    pub fn piece_length(&self) -> (out: u32)
        ensures
            out == self@.piece_length,
    {
        self.piece_length
    }

    /// Length of the whole content.
    pub fn total_length(&self) -> (out: u64)
        ensures
            out == self@.total_length,
    {
        self.total_length
    }

    /// Number of pieces.
    pub fn piece_count(&self) -> (out: usize)
        ensures
            out == self@.piece_count(),
    {
        self.piece_hashes.len()
    }

    /// The expected digest of piece `index`.
    pub fn piece_hash(&self, index: usize) -> (out: &Vec<u8>)
        requires
            index < self@.piece_count(),
        ensures
            out@ == self@.piece_hashes[index as int],
    {
        &self.piece_hashes[index]
    }

    /// The files of the content, in order.
    pub fn files(&self) -> (out: &Vec<FileEntry>)
        ensures
            entry_models(out@) == self@.files,
    {
        &self.files
    }

    /// The tiers of tracker URLs, in the order in which they are tried.
    pub fn announce_tiers(&self) -> (out: &Vec<Vec<String>>)
        ensures
            tiers_of(out@) == self@.announce_tiers,
    {
        &self.announce_tiers
    }

    /// The length of piece `index`.
    pub fn piece_len(&self, index: usize) -> (out: u32)
        requires
            self.wf(),
            index < self@.piece_count(),
        ensures
            out == self@.piece_len(index as int),
            out > 0,
    {
        let count = self.piece_hashes.len();
        proof {
            self@.lemma_piece_len_bounds(index as int);
        }
        if index + 1 == count {
            let before: u64 = (count - 1) as u64;
            assert(before * self.piece_length <= 0xffff_ffff * 0xffff_ffff) by (nonlinear_arith)
                requires
                    0 <= before <= 0xffff_ffff,
                    0 <= self.piece_length <= 0xffff_ffff,
            ;
            (self.total_length - before * (self.piece_length as u64)) as u32
        } else {
            self.piece_length
        }
    }
}

} // verus!
