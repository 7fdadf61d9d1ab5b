//! A torrent file: its descriptor and what is derived from it.

use crate::download::{DownloadTask, TaskModel};
use crate::error::EngineError;
use crate::hashing::{hex_encode, hex_lower, sha1_digest};
use crate::torrent::{
    collect_files, copy_bytes, descriptor_files, descriptor_lengths_ok, descriptor_ok,
    entry_lengths, lengths_of, sum_lengths, texts, total_of, File, Torrent, TorrentMetadata,
};
use crate::tracker::http::HttpTrackerResponse;
use crate::tracker::tracker::Tracker;
use magnet_url::MagnetBuilder;
use vstd::prelude::*;
use vstd::string::StringExecFns;

verus! {

/// A torrent file: its descriptor, its trackers, its info hash and its
/// downloads.
#[derive(Clone, Debug)]
pub struct TorrentFile {
    /// The decoded descriptor.
    pub meta_data: Torrent,
    /// Every tracker URL of the descriptor.
    pub announces: Vec<String>,
    /// The info hash: the SHA-1 digest of the encoded info dictionary.
    pub info_hash: Vec<u8>,
    /// Whether the torrent holds several files.
    pub is_multiple_files: bool,
    /// The responses of the trackers, by tracker URL.
    pub peers: Option<Vec<(String, Vec<HttpTrackerResponse>)>>,
    /// The downloads of the torrent.
    pub downloads: Option<Vec<DownloadTask>>,
    /// Where the downloaded files are stored.
    pub storage_path: String,
}

/// The URLs of the first `n` tiers, one after the other.
pub open spec fn flat_upto(list: Seq<Vec<String>>, n: int) -> Seq<Seq<char>>
    decreases n,
{
    if n <= 0 {
        Seq::empty()
    } else {
        flat_upto(list, n - 1) + texts(list[n - 1]@)
    }
}

/// Every tracker URL of a descriptor: its `announce` URL, then the URLs of
/// its `announce-list`, tier by tier.
pub open spec fn all_announces(t: Torrent) -> Seq<Seq<char>> {
    (match t.announce {
        Some(url) => seq![url@],
        None => Seq::empty(),
    }) + (match t.announce_list {
        Some(list) => flat_upto(list@, list@.len() as int),
        None => Seq::empty(),
    })
}

/// The text of a magnet link with the given display name, hash type and
/// hash, as the `magnet-url` crate writes it.
pub open spec fn magnet_text(name: Seq<char>, hash_type: Seq<char>, hash: Seq<char>) -> Seq<char> {
    "magnet:?"@ + "xt=urn:"@ + hash_type + ":"@ + hash + "&dn="@ + name
}

/// Trusted: builds a magnet with `MagnetBuilder` of the `magnet-url` crate
/// (`display_name`, `hash_type`, `hash`, `build`) and writes it as text. The
/// contract claims that the text is `magnet:?xt=urn:`, the hash type, a
/// colon, the hash, `&dn=` and the name, none of them escaped.
#[verifier::external_body]
pub(crate) fn magnet_uri(name: &str, hash_type: &str, hash: &str) -> (out: String)
    ensures
        out@ == magnet_text(name@, hash_type@, hash@),
{
    MagnetBuilder::new().display_name(name).hash_type(hash_type).hash(hash).build().to_string()
}

/// The number of pieces that a descriptor holds digests for.
pub open spec fn digest_count(t: Torrent) -> usize {
    (t.info.pieces@.len() / 20) as usize
}

/// The length of the whole content of a descriptor, as a download counts
/// it.
pub open spec fn content_length(t: Torrent) -> u64 {
    let total = total_of(lengths_of(descriptor_files(t.info)));
    if total > i64::MAX {
        i64::MAX as u64
    } else {
        total as u64
    }
}

impl TorrentFile {
    /// The torrent file of a decoded descriptor. `info_bytes` are the
    /// encoded bytes of its info dictionary, which the info hash is taken
    /// over. A descriptor that does not describe a torrent is rejected as
    /// malformed, and no other.
    pub fn new(meta_data: Torrent, info_bytes: &[u8]) -> (out: Result<Self, EngineError>)
        ensures
            out is Ok <==> descriptor_ok(meta_data),
            out matches Err(e) ==> e == EngineError::MalformedMetadata,
            out matches Ok(tf) ==> {
                &&& tf.meta_data == meta_data
                &&& texts(tf.announces@) == all_announces(meta_data)
                &&& tf.info_hash@ == sha1_digest(info_bytes@)
                &&& tf.is_multiple_files == (meta_data.info.files is Some)
                &&& tf.peers is None
                &&& tf.downloads matches Some(tasks) && tasks@.len() == 0
                &&& tf.storage_path@ == "."@
            },
    {
        let meta = match TorrentMetadata::from_descriptor(&meta_data, info_bytes) {
            Ok(meta) => meta,
            Err(e) => {
                return Err(e);
            },
        };
        let announces = Self::get_all_announce(&meta_data);
        let is_multiple_files = Self::is_multiple_files(&meta_data);
        Ok(
            TorrentFile {
                meta_data,
                announces,
                info_hash: copy_bytes(meta.info_hash().as_slice()),
                is_multiple_files,
                peers: None,
                downloads: Some(Vec::new()),
                storage_path: String::from_str("."),
            },
        )
    }

    /// Every tracker URL of a descriptor: its `announce` URL, then the URLs
    /// of its `announce-list`, tier by tier.
    pub fn get_all_announce(torrent: &Torrent) -> (announces: Vec<String>)
        ensures
            texts(announces@) == all_announces(*torrent),
    {
        let mut announces: Vec<String> = Vec::new();
        match &torrent.announce {
            Some(url) => {
                announces.push(url.clone());
                assert(texts(announces@) =~= seq![url@]);
            },
            None => {
                assert(texts(announces@) =~= Seq::<Seq<char>>::empty());
            },
        }
        let ghost first = texts(announces@);
        match &torrent.announce_list {
            Some(list) => {
                let mut t: usize = 0;
                while t < list.len()
                    invariant
                        t <= list@.len(),
                        texts(announces@) == first + flat_upto(list@, t as int),
                    decreases list@.len() - t,
                {
                    let tier = &list[t];
                    let ghost before = texts(announces@);
                    let mut u: usize = 0;
                    while u < tier.len()
                        invariant
                            u <= tier@.len(),
                            texts(announces@) == before + texts(tier@).subrange(0, u as int),
                        decreases tier@.len() - u,
                    {
                        let ghost old_announces = announces@;
                        announces.push(tier[u].clone());
                        u += 1;
                        assert(texts(announces@) =~= before + texts(tier@).subrange(0, u as int)) by {
                            let want = before + texts(tier@).subrange(0, u as int);
                            let had = texts(old_announces);
                            assert(had == before + texts(tier@).subrange(0, u - 1));
                            assert(had.len() == before.len() + u - 1);
                            assert forall|k: int| 0 <= k < announces@.len() implies texts(
                                announces@,
                            )[k] == want[k] by {
                                if k < old_announces.len() {
                                    assert(announces@[k] == old_announces[k]);
                                    assert(texts(announces@)[k] == had[k]);
                                } else {
                                    assert(texts(announces@)[k] == tier@[u - 1]@);
                                }
                            }
                        }
                    }
                    assert(texts(tier@).subrange(0, tier@.len() as int) =~= texts(tier@));
                    t += 1;
                    assert(first + flat_upto(list@, t as int) =~= before + texts(tier@));
                }
            },
            None => {
                assert(first + Seq::<Seq<char>>::empty() =~= first);
            },
        }
        announces
    }

    /// The magnet link of the torrent: its info hash in hexadecimal as the
    /// `btih` topic, and its name.
    pub fn make_magnet_url(&self) -> (out: Result<String, String>)
        ensures
            out matches Ok(link) && link@ == magnet_text(
                self.meta_data.info.name@,
                "btih"@,
                hex_lower(self.info_hash@),
            ),
    {
        let hash = hex_encode(self.info_hash.as_slice());
        Ok(magnet_uri(self.meta_data.info.name.as_str(), "btih", hash.as_str()))
    }

    /// Whether a descriptor holds several files.
    pub fn is_multiple_files(tf: &Torrent) -> (multiple: bool)
        ensures
            multiple == (tf.info.files is Some),
    {
        tf.info.files.is_some()
    }

    /// Sets where the downloaded files are stored.
    pub fn set_storage_path(&mut self, storage_path: String) -> (out: Result<(), String>)
        ensures
            out is Ok,
            *final(self) == (TorrentFile { storage_path, ..*old(self) }),
    {
        self.storage_path = storage_path;
        Ok(())
    }

    /// Makes the download of the torrent ready: one download of the whole
    /// content, waiting. Where the descriptor names no content, a negative
    /// length, or more bytes than 64 bits count, no download is made.
    pub fn ready_to_download(&mut self)
        ensures
            final(self).downloads matches Some(tasks) && (if descriptor_lengths_ok(
                old(self).meta_data.info,
            ) && total_of(lengths_of(descriptor_files(old(self).meta_data.info))) <= u64::MAX {
                tasks@.len() == 1 && tasks@[0].wf() && tasks@[0]@ == TaskModel::waiting(
                    old(self).info_hash@,
                    content_length(old(self).meta_data),
                    digest_count(old(self).meta_data),
                )
            } else {
                tasks@.len() == 0
            }),
            *final(self) == (TorrentFile { downloads: final(self).downloads, ..*old(self) }),
    {
        let mut tasks: Vec<DownloadTask> = Vec::new();
        match collect_files(&self.meta_data.info) {
            Some(files) => {
                assert(entry_lengths(files@) =~= lengths_of(
                    descriptor_files(self.meta_data.info),
                ));
                match sum_lengths(&files) {
                    Some(total) => {
                        let length: i64 = if total > 0x7fff_ffff_ffff_ffff {
                            0x7fff_ffff_ffff_ffff
                        } else {
                            total as i64
                        };
                        let mut path: Vec<String> = Vec::new();
                        path.push(self.meta_data.info.name.clone());
                        let file = File {
                            path,
                            length,
                            md5sum: None,
                            tracker_response_list: None,
                        };
                        let tracker = Tracker::new(self);
                        tasks.push(
                            DownloadTask::new(
                                copy_bytes(self.info_hash.as_slice()),
                                file,
                                tracker,
                                self.meta_data.info.pieces.len() / 20,
                            ),
                        );
                    },
                    None => {},
                }
            },
            None => {},
        }
        self.downloads = Some(tasks);
    }

    /// Starts the downloads. The files of a torrent of several files go to
    /// a directory of the torrent's name below the storage path.
    pub fn download(&mut self) -> (out: Result<String, String>)
        ensures
            out matches Ok(s) && s@ == "done"@,
            final(self).storage_path@ == (if old(self).is_multiple_files {
                old(self).storage_path@ + "\\"@ + old(self).meta_data.info.name@
            } else {
                old(self).storage_path@
            }),
            match old(self).downloads {
                Some(tasks) => final(self).downloads matches Some(started) && started@.len()
                    == tasks@.len() && forall|i: int|
                    0 <= i < tasks@.len() ==> (#[trigger] started@[i])@ == tasks@[i]@.started()
                        && (tasks@[i].wf() ==> started@[i].wf()),
                None => final(self).downloads is None,
            },
    {
        if self.is_multiple_files {
            self.storage_path.append("\\");
            self.storage_path.append(self.meta_data.info.name.as_str());
        }
        let ghost before = self.downloads;
        match &mut self.downloads {
            Some(tasks) => {
                let ghost old_tasks = tasks@;
                let mut i: usize = 0;
                while i < tasks.len()
                    invariant
                        i <= tasks@.len(),
                        tasks@.len() == old_tasks.len(),
                        forall|k: int|
                            0 <= k < i ==> (#[trigger] tasks@[k])@ == old_tasks[k]@.started() && (
                            old_tasks[k].wf() ==> tasks@[k].wf()),
                        forall|k: int| i <= k < tasks@.len() ==> #[trigger] tasks@[k] == old_tasks[k],
                    decreases tasks@.len() - i,
                {
                    tasks[i].start();
                    i += 1;
                }
            },
            None => {},
        }
        Ok(String::from_str("done"))
    }
}

} // verus!
