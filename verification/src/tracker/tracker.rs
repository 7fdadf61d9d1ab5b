//! The tracker client of one torrent file: which requests an announce
//! sends.

use crate::file::TorrentFile;
use crate::text::{decimal, percent_encoded};
use crate::torrent::{copy_bytes, copy_texts, texts, File};
use crate::tracker::http::{compact_text, HttpTrackerRquest};
use crate::tracker::{scheme_class, scheme_of, AnnounceEvent, AnnounceStats, Scheme};
use vstd::prelude::*;

verus! {

/// The port that this client listens on.
pub const HTTP_TRACKER_PORT: u16 = 6881;

/// The peer id of this client, the ASCII text `00112233445566778899`.
pub open spec fn client_peer_id() -> Seq<u8> {
    Seq::new(20, |i: int| (48 + i / 2) as u8)
}

/// The peer id of this client.
pub fn peer_id() -> (id: Vec<u8>)
    ensures
        id@ == client_peer_id(),
{
    let mut id: Vec<u8> = Vec::new();
    let mut i: u8 = 0;
    while i < 20
        invariant
            i <= 20,
            id@ == Seq::new(i as nat, |k: int| (48 + k / 2) as u8),
        decreases 20 - i,
    {
        id.push(48 + i / 2);
        i += 1;
        assert(id@ =~= Seq::new(i as nat, |k: int| (48 + k / 2) as u8));
    }
    id
}

/// The tracker client of one torrent file.
#[derive(Clone, Debug)]
pub struct Tracker {
    /// Every tracker URL of the torrent.
    pub announces: Vec<String>,
    /// The info hash of the torrent.
    pub info_hash: Vec<u8>,
    /// Whether the torrent holds several files.
    pub is_multiple_files: bool,
}

/// The bytes still to come of a file of the given length: none where the
/// length is negative.
pub open spec fn left_of(length: i64) -> u64 {
    if length < 0 {
        0
    } else {
        length as u64
    }
}

impl Tracker {
    /// The tracker client of a torrent file.
    pub fn new(tf: &TorrentFile) -> (tracker: Self)
        ensures
            texts(tracker.announces@) == texts(tf.announces@),
            tracker.info_hash@ == tf.info_hash@,
            tracker.is_multiple_files == tf.is_multiple_files,
    {
        Tracker {
            announces: copy_texts(&tf.announces),
            info_hash: copy_bytes(tf.info_hash.as_slice()),
            is_multiple_files: tf.is_multiple_files,
        }
    }

    /// The requests of a first announce for `file`, one entry for each
    /// tracker URL: the HTTP request for a URL of scheme `http` or `https`,
    /// `None` for any other URL.
    pub fn get_peers(&self, file: &File, downloaded: u64, uploaded: u64) -> (requests: Vec<
        Option<HttpTrackerRquest>,
    >)
        ensures
            requests@.len() == self.announces@.len(),
            forall|i: int|
                0 <= i < requests@.len() ==> ((#[trigger] requests@[i]) is Some <==> scheme_class(
                    vstd::utf8::encode_utf8(self.announces@[i]@),
                ) is Http),
            forall|i: int|
                0 <= i < requests@.len() ==> (#[trigger] requests@[i] matches Some(req) ==> {
                    &&& req.info_hash@ == percent_encoded(self.info_hash@)
                    &&& req.peer_id@ == percent_encoded(client_peer_id())
                    &&& req.port@ == decimal(HTTP_TRACKER_PORT as nat)
                    &&& req.uploaded@ == decimal(uploaded as nat)
                    &&& req.downloaded@ == decimal(downloaded as nat)
                    &&& req.left@ == decimal(left_of(file.length) as nat)
                    &&& req.compact@ == compact_text(false)
                    &&& req.event@ == AnnounceEvent::Started.text()
                }),
    {
        let left: u64 = if file.length < 0 {
            0
        } else {
            file.length as u64
        };
        let stats = AnnounceStats { uploaded, downloaded, left, event: AnnounceEvent::Started };
        let id = peer_id();
        let mut requests: Vec<Option<HttpTrackerRquest>> = Vec::new();
        let mut i: usize = 0;
        while i < self.announces.len()
            invariant
                i <= self.announces@.len(),
                requests@.len() == i,
                id@ == client_peer_id(),
                stats == (AnnounceStats {
                    uploaded,
                    downloaded,
                    left: left_of(file.length),
                    event: AnnounceEvent::Started,
                }),
                forall|k: int|
                    0 <= k < i ==> ((#[trigger] requests@[k]) is Some <==> scheme_class(
                        vstd::utf8::encode_utf8(self.announces@[k]@),
                    ) is Http),
                forall|k: int|
                    0 <= k < i ==> (#[trigger] requests@[k] matches Some(req) ==> {
                        &&& req.info_hash@ == percent_encoded(self.info_hash@)
                        &&& req.peer_id@ == percent_encoded(client_peer_id())
                        &&& req.port@ == decimal(HTTP_TRACKER_PORT as nat)
                        &&& req.uploaded@ == decimal(uploaded as nat)
                        &&& req.downloaded@ == decimal(downloaded as nat)
                        &&& req.left@ == decimal(left_of(file.length) as nat)
                        &&& req.compact@ == compact_text(false)
                        &&& req.event@ == AnnounceEvent::Started.text()
                    }),
            decreases self.announces@.len() - i,
        {
            let entry = match scheme_of(self.announces[i].as_str()) {
                Scheme::Http => Some(
                    HttpTrackerRquest::announce(
                        self.info_hash.as_slice(),
                        id.as_slice(),
                        HTTP_TRACKER_PORT,
                        &stats,
                        false,
                    ),
                ),
                _ => None,
            };
            requests.push(entry);
            i += 1;
        }
        requests
    }
}

} // verus!
