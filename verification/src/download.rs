//! The download orchestrator: the progress of one download and what is to be
//! done at each of its events.

use crate::error::EngineError;
use crate::peer::Peer;
use crate::torrent::{copy_bytes, File};
use crate::tracker::http::HttpTrackerResponse;
use crate::tracker::tracker::Tracker;
use crate::tracker::AnnounceEvent;
use vstd::prelude::*;

verus! {

/// Most peer connections that a download holds at a time.
pub const MAX_PEERS: usize = 50;

/// Number of peer connections below which a download asks the trackers for
/// more peers at once.
pub const LOW_WATER: usize = 5;

/// Seconds after which an announce that reached no tracker is tried again.
pub const RETRY_DELAY: u64 = 60;

/// Where a download stands.
#[derive(Clone, Copy, Debug, PartialEq, Eq, Structural)]
pub enum DownloadStatus {
    WAITING,
    DOWNLOADING,
    FINISH,
}

/// The progress of a download, as a query sees it.
#[derive(Clone, Copy, Debug, PartialEq, Eq, Structural)]
pub struct DownloadProgress {
    pub downloaded: u64,
    pub total: u64,
    pub verified_pieces: usize,
    pub status: DownloadStatus,
    /// Whether the download is under way with no peer connected and no
    /// tracker reached.
    pub stalled: bool,
}

/// What the orchestrator asks of its surroundings.
#[derive(Clone, Copy, Debug, PartialEq, Eq, Structural)]
pub enum TaskAction {
    /// Nothing is to be done.
    Nothing,
    /// Announce to the trackers with this event.
    Announce(AnnounceEvent),
    /// The download is finished: announce its completion and close every
    /// peer connection.
    Complete,
    /// The download was shut down: announce that it stopped, give up the
    /// announces under way and close every peer connection.
    Stop,
}

/// One download: its file, its trackers and peers, and its progress.
#[derive(Clone, Debug)]
pub struct DownloadTask {
    file: File,
    tracker: Tracker,
    peers: Option<Vec<Peer>>,
    piece_count: usize,
    verified: usize,
    active_peers: usize,
    tracker_failed: bool,
    next_announce: u64,
    progress: u16,
    downloaded: u64,
    total_download: i64,
    status: DownloadStatus,
    info_hash: Vec<u8>,
}

/// The mathematical content of a `DownloadTask`, as far as its decisions go.
pub struct TaskModel {
    pub status: DownloadStatus,
    pub downloaded: u64,
    pub total: u64,
    pub piece_count: usize,
    pub verified: usize,
    pub active_peers: usize,
    /// Whether the last announce reached no tracker.
    pub tracker_failed: bool,
    /// The time at which the next periodic announce is due.
    pub next_announce: u64,
    pub progress: u16,
    pub info_hash: Seq<u8>,
}

impl View for DownloadTask {
    type V = TaskModel;

    closed spec fn view(&self) -> TaskModel {
        TaskModel {
            status: self.status,
            downloaded: self.downloaded,
            total: if self.total_download < 0 {
                0
            } else {
                self.total_download as u64
            },
            piece_count: self.piece_count,
            verified: self.verified,
            active_peers: self.active_peers,
            tracker_failed: self.tracker_failed,
            next_announce: self.next_announce,
            progress: self.progress,
            info_hash: self.info_hash@,
        }
    }
}

/// `a + b`, or the greatest number where that does not fit.
pub open spec fn add_capped(a: u64, b: u64) -> u64 {
    if a + b > u64::MAX {
        u64::MAX
    } else {
        (a + b) as u64
    }
}

/// The percentage that `downloaded` is of `total`; a hundred where nothing
/// is to be downloaded.
pub open spec fn percent(downloaded: u64, total: u64) -> u16 {
    if total == 0 || downloaded >= total {
        100
    } else {
        (downloaded as int * 100 / total as int) as u16
    }
}

impl TaskModel {
    /// The invariant of a download: no more pieces are verified than there
    /// are, all of them exactly where it is finished, and no more peers are
    /// connected than allowed.
    pub open spec fn wf(self) -> bool {
        &&& self.verified <= self.piece_count
        &&& self.active_peers <= MAX_PEERS
        &&& self.status is WAITING ==> self.active_peers == 0
        &&& self.status is FINISH ==> self.verified == self.piece_count
        &&& self.status is DOWNLOADING ==> self.verified < self.piece_count
    }

    /// A download before its start.
    pub open spec fn waiting(info_hash: Seq<u8>, total: u64, piece_count: usize) -> TaskModel {
        TaskModel {
            status: DownloadStatus::WAITING,
            downloaded: 0,
            total,
            piece_count,
            verified: 0,
            active_peers: 0,
            tracker_failed: false,
            next_announce: u64::MAX,
            progress: 0,
            info_hash,
        }
    }

    /// The download after `start`: a waiting download begins, or is
    /// finished at once where no piece is left to verify; any other is left
    /// as it is.
    pub open spec fn started(self) -> TaskModel {
        if !(self.status is WAITING) {
            self
        } else if self.verified >= self.piece_count {
            TaskModel { status: DownloadStatus::FINISH, progress: 100, ..self }
        } else {
            TaskModel { status: DownloadStatus::DOWNLOADING, ..self }
        }
    }

    /// What `start` asks for.
    pub open spec fn start_action(self) -> TaskAction {
        if !(self.status is WAITING) {
            TaskAction::Nothing
        } else if self.verified >= self.piece_count {
            TaskAction::Complete
        } else {
            TaskAction::Announce(AnnounceEvent::Started)
        }
    }

    /// The download after a shutdown: a download under way waits again,
    /// with no peer connected, and keeps what it has verified; any other is
    /// left as it is.
    pub open spec fn stopped(self) -> TaskModel {
        if self.status is DOWNLOADING {
            TaskModel { status: DownloadStatus::WAITING, active_peers: 0, ..self }
        } else {
            self
        }
    }

    /// What a shutdown asks for: the stop, once.
    pub open spec fn stop_action(self) -> TaskAction {
        if self.status is DOWNLOADING {
            TaskAction::Stop
        } else {
            TaskAction::Nothing
        }
    }

    /// Whether a periodic announce is due at time `now`.
    pub open spec fn announce_due(self, now: u64) -> bool {
        self.status is DOWNLOADING && now >= self.next_announce
    }

    /// The download after the clock has reached `now`: where a periodic
    /// announce is due, the one after it is due `RETRY_DELAY` later, until
    /// the answer of a tracker says otherwise.
    pub open spec fn after_tick(self, now: u64) -> TaskModel {
        if self.announce_due(now) {
            TaskModel { next_announce: add_capped(now, RETRY_DELAY), ..self }
        } else {
            self
        }
    }

    /// What is asked for when the clock has reached `now`.
    pub open spec fn tick_action(self, now: u64) -> TaskAction {
        if self.announce_due(now) {
            TaskAction::Announce(AnnounceEvent::Periodic)
        } else {
            TaskAction::Nothing
        }
    }

    /// Whether the download is stalled: under way with no peer connected
    /// and no tracker reached.
    pub open spec fn stalled(self) -> bool {
        self.status is DOWNLOADING && self.active_peers == 0 && self.tracker_failed
    }

    /// How many of `offered` peers are to be connected: as many as the limit
    /// leaves room for, and none unless the download is under way.
    pub open spec fn admitted(self, offered: usize) -> usize {
        if !(self.status is DOWNLOADING) || self.active_peers >= MAX_PEERS {
            0
        } else if offered <= MAX_PEERS - self.active_peers {
            offered
        } else {
            (MAX_PEERS - self.active_peers) as usize
        }
    }

    /// The download after a piece of `bytes` bytes was verified.
    pub open spec fn with_piece(self, bytes: u64) -> TaskModel {
        if !(self.status is DOWNLOADING) {
            self
        } else {
            let downloaded = add_capped(self.downloaded, bytes);
            let verified = if self.verified < self.piece_count {
                (self.verified + 1) as usize
            } else {
                self.verified
            };
            TaskModel {
                downloaded,
                verified,
                progress: percent(downloaded, self.total),
                status: if verified == self.piece_count {
                    DownloadStatus::FINISH
                } else {
                    DownloadStatus::DOWNLOADING
                },
                ..self
            }
        }
    }

    /// What is asked for after a piece was verified: the completion, once,
    /// when it was the last one.
    pub open spec fn piece_action(self) -> TaskAction {
        if self.status is DOWNLOADING && self.with_piece(0).verified == self.piece_count {
            TaskAction::Complete
        } else {
            TaskAction::Nothing
        }
    }

    /// The download after a peer connection was closed.
    pub open spec fn with_peer_closed(self) -> TaskModel {
        if self.active_peers > 0 {
            TaskModel { active_peers: (self.active_peers - 1) as usize, ..self }
        } else {
            self
        }
    }

    /// What is asked for after a peer connection was closed: fresh peers at
    /// once, where the download is under way and its connections have
    /// dropped below the low-water mark.
    pub open spec fn peer_closed_action(self) -> TaskAction {
        if self.status is DOWNLOADING && self.with_peer_closed().active_peers < LOW_WATER {
            TaskAction::Announce(AnnounceEvent::Periodic)
        } else {
            TaskAction::Nothing
        }
    }
}

impl DownloadTask {
    /// The invariant of the download.
    pub open spec fn wf(&self) -> bool {
        self@.wf()
    }

    /// A download of `file`, of `piece_count` pieces, before its start.
    pub fn new(info_hash: Vec<u8>, file: File, tracker: Tracker, piece_count: usize) -> (task: Self)
        ensures
            task.wf(),
            task@ == TaskModel::waiting(
                info_hash@,
                if file.length < 0 {
                    0
                } else {
                    file.length as u64
                },
                piece_count,
            ),
    {
        let total_download = file.length;
        DownloadTask {
            file,
            tracker,
            peers: None,
            piece_count,
            verified: 0,
            active_peers: 0,
            tracker_failed: false,
            next_announce: u64::MAX,
            progress: 0,
            downloaded: 0,
            total_download,
            status: DownloadStatus::WAITING,
            info_hash,
        }
    }

    /// Starts the download: it is under way, and the first announce is due.
    pub fn start(&mut self) -> (action: TaskAction)
        ensures
            old(self).wf() ==> final(self).wf(),
            final(self)@ == old(self)@.started(),
            action == old(self)@.start_action(),
    {
        match self.status {
            DownloadStatus::WAITING => {
                if self.verified >= self.piece_count {
                    self.status = DownloadStatus::FINISH;
                    self.progress = 100;
                    TaskAction::Complete
                } else {
                    self.status = DownloadStatus::DOWNLOADING;
                    TaskAction::Announce(AnnounceEvent::Started)
                }
            },
            _ => TaskAction::Nothing,
        }
    }

    /// Takes the peers of an announce and says how many of them, from the
    /// first on, are to be connected.
    pub fn admit_peers(&mut self, peers: Vec<Peer>) -> (count: usize)
        ensures
            old(self).wf() ==> final(self).wf(),
            count == old(self)@.admitted(peers@.len() as usize),
            count <= peers@.len(),
            final(self)@ == (TaskModel {
                active_peers: (old(self)@.active_peers + count) as usize,
                ..old(self)@
            }),
    {
        let offered = peers.len();
        self.peers = Some(peers);
        match self.status {
            DownloadStatus::DOWNLOADING => {
                let room = if self.active_peers >= MAX_PEERS {
                    0
                } else {
                    MAX_PEERS - self.active_peers
                };
                let count = if offered <= room {
                    offered
                } else {
                    room
                };
                self.active_peers = self.active_peers + count;
                count
            },
            _ => 0,
        }
    }

    /// Records a verified piece of `bytes` bytes. With the last piece the
    /// download is finished, and its completion is asked for, once.
    pub fn piece_verified(&mut self, bytes: u64) -> (action: TaskAction)
        ensures
            old(self).wf() ==> final(self).wf(),
            final(self)@ == old(self)@.with_piece(bytes),
            action == old(self)@.piece_action(),
    {
        match self.status {
            DownloadStatus::DOWNLOADING => {
                self.downloaded = match self.downloaded.checked_add(bytes) {
                    Some(sum) => sum,
                    None => u64::MAX,
                };
                if self.verified < self.piece_count {
                    self.verified = self.verified + 1;
                }
                let total: u64 = if self.total_download < 0 {
                    0
                } else {
                    self.total_download as u64
                };
                self.progress = if total == 0 || self.downloaded >= total {
                    100
                } else {
                    let scaled: u128 = (self.downloaded as u128) * 100 / (total as u128);
                    assert(scaled < 100) by (nonlinear_arith)
                        requires
                            scaled == (self.downloaded as int) * 100 / (total as int),
                            0 <= self.downloaded < total,
                    ;
                    scaled as u16
                };
                if self.verified == self.piece_count {
                    self.status = DownloadStatus::FINISH;
                    TaskAction::Complete
                } else {
                    TaskAction::Nothing
                }
            },
            _ => TaskAction::Nothing,
        }
    }

    /// Records that a peer connection was closed. Where too few are left
    /// while the download is under way, fresh peers are asked for without
    /// waiting for the announce interval.
    pub fn peer_closed(&mut self) -> (action: TaskAction)
        ensures
            old(self).wf() ==> final(self).wf(),
            final(self)@ == old(self)@.with_peer_closed(),
            action == old(self)@.peer_closed_action(),
    {
        if self.active_peers > 0 {
            self.active_peers = self.active_peers - 1;
        }
        match self.status {
            DownloadStatus::DOWNLOADING => {
                if self.active_peers < LOW_WATER {
                    TaskAction::Announce(AnnounceEvent::Periodic)
                } else {
                    TaskAction::Nothing
                }
            },
            _ => TaskAction::Nothing,
        }
    }

    /// Records that a tracker answered an announce at time `now`, and that
    /// the next one is due `delay` seconds later.
    pub fn announce_answered(&mut self, now: u64, delay: u64)
        ensures
            old(self).wf() ==> final(self).wf(),
            final(self)@ == (TaskModel {
                tracker_failed: false,
                next_announce: add_capped(now, delay),
                ..old(self)@
            }),
    {
        self.tracker_failed = false;
        self.next_announce = match now.checked_add(delay) {
            Some(at) => at,
            None => u64::MAX,
        };
    }

    /// Records that an announce at time `now` reached no tracker. The
    /// download goes on with the peers that it has; the announce is tried
    /// again `RETRY_DELAY` seconds later.
    pub fn announce_failed(&mut self, now: u64)
        ensures
            old(self).wf() ==> final(self).wf(),
            final(self)@ == (TaskModel {
                tracker_failed: true,
                next_announce: add_capped(now, RETRY_DELAY),
                ..old(self)@
            }),
    {
        self.tracker_failed = true;
        self.next_announce = match now.checked_add(RETRY_DELAY) {
            Some(at) => at,
            None => u64::MAX,
        };
    }

    /// Tells what is due when the clock has reached `now`: the periodic
    /// announce, at the interval that the tracker named.
    pub fn tick(&mut self, now: u64) -> (action: TaskAction)
        ensures
            old(self).wf() ==> final(self).wf(),
            final(self)@ == old(self)@.after_tick(now),
            action == old(self)@.tick_action(now),
    {
        match self.status {
            DownloadStatus::DOWNLOADING => {
                if now >= self.next_announce {
                    self.next_announce = match now.checked_add(RETRY_DELAY) {
                        Some(at) => at,
                        None => u64::MAX,
                    };
                    TaskAction::Announce(AnnounceEvent::Periodic)
                } else {
                    TaskAction::Nothing
                }
            },
            _ => TaskAction::Nothing,
        }
    }

    /// Shuts the download down. A second shutdown changes nothing and asks
    /// for nothing.
    pub fn shutdown(&mut self) -> (action: TaskAction)
        ensures
            old(self).wf() ==> final(self).wf(),
            final(self)@ == old(self)@.stopped(),
            action == old(self)@.stop_action(),
    {
        match self.status {
            DownloadStatus::DOWNLOADING => {
                self.status = DownloadStatus::WAITING;
                self.active_peers = 0;
                TaskAction::Stop
            },
            _ => TaskAction::Nothing,
        }
    }

    /// Takes a failure that some part of the session met. A failure of the
    /// storage or of the metadata shuts the download down, what it has
    /// verified kept for a later start; a failure of a peer, a tracker or a
    /// piece is contained where it arose and changes nothing here.
    pub fn on_error(&mut self, error: EngineError) -> (action: TaskAction)
        ensures
            old(self).wf() ==> final(self).wf(),
            final(self)@ == (if error is MalformedMetadata || error is StorageFailed {
                old(self)@.stopped()
            } else {
                old(self)@
            }),
            action == (if error is MalformedMetadata || error is StorageFailed {
                old(self)@.stop_action()
            } else {
                TaskAction::Nothing
            }),
    {
        if error.is_fatal() {
            self.shutdown()
        } else {
            TaskAction::Nothing
        }
    }

    /// Adds `new_progress` to the progress in percent, which never passes a
    /// hundred.
    pub fn update_progress(&mut self, new_progress: u16)
        ensures
            final(self)@ == (TaskModel {
                progress: if old(self)@.progress + new_progress > 100 {
                    100u16
                } else {
                    (old(self)@.progress + new_progress) as u16
                },
                ..old(self)@
            }),
    {
        self.progress = if self.progress as u32 + new_progress as u32 > 100 {
            100
        } else {
            self.progress + new_progress
        };
    }

    /// Bytes downloaded and verified.
    pub fn downloaded(&self) -> (bytes: u64)
        ensures
            bytes == self@.downloaded,
    {
        self.downloaded
    }

    /// The info hash of the torrent.
    pub fn info_hash(&self) -> (hash: &Vec<u8>)
        ensures
            hash@ == self@.info_hash,
    {
        &self.info_hash
    }

    /// Where the download stands.
    pub fn status(&self) -> (status: DownloadStatus)
        ensures
            status == self@.status,
    {
        self.status
    }

    /// The progress of the download. It can be asked for at any time.
    pub fn progress(&self) -> (progress: DownloadProgress)
        ensures
            progress == (DownloadProgress {
                downloaded: self@.downloaded,
                total: self@.total,
                verified_pieces: self@.verified,
                status: self@.status,
                stalled: self@.stalled(),
            }),
    {
        DownloadProgress {
            downloaded: self.downloaded,
            total: if self.total_download < 0 {
                0
            } else {
                self.total_download as u64
            },
            verified_pieces: self.verified,
            status: self.status,
            stalled: self.is_stalled(),
        }
    }

    /// Whether the download is stalled: under way with no peer connected
    /// and no tracker reached.
    pub fn is_stalled(&self) -> (stalled: bool)
        ensures
            stalled == self@.stalled(),
    {
        match self.status {
            DownloadStatus::DOWNLOADING => self.active_peers == 0 && self.tracker_failed,
            _ => false,
        }
    }
}

/// The text of an optional string.
pub open spec fn opt_text(o: Option<String>) -> Option<Seq<char>> {
    match o {
        Some(s) => Some(s@),
        None => None,
    }
}

/// What a peer says, apart from the torrent that it is asked for: its id,
/// host and port.
pub struct PeerModel {
    pub peer_id: Option<Seq<char>>,
    pub ip: Option<Seq<char>>,
    pub port: Option<u64>,
}

/// What a peer of a tracker's response says.
pub open spec fn offered(p: crate::tracker::http::Peer) -> PeerModel {
    PeerModel { peer_id: opt_text(p.peer_id), ip: opt_text(p.ip), port: p.port }
}

/// The peers of the first `n` responses, in order; a response without a
/// peer list adds none.
pub open spec fn peers_upto(responses: Seq<HttpTrackerResponse>, n: int) -> Seq<PeerModel>
    decreases n,
{
    if n <= 0 {
        Seq::empty()
    } else {
        peers_upto(responses, n - 1) + match responses[n - 1].peers {
            Some(peers) => Seq::new(peers@.len(), |i: int| offered(peers@[i])),
            None => Seq::empty(),
        }
    }
}

/// What the peers of a list say.
pub open spec fn peer_models(peers: Seq<Peer>) -> Seq<PeerModel> {
    Seq::new(
        peers.len(),
        |i: int|
            PeerModel {
                peer_id: opt_text(peers[i].peer_id),
                ip: opt_text(peers[i].ip),
                port: peers[i].port,
            },
    )
}

/// A copy of an optional string.
fn copy_opt(o: &Option<String>) -> (out: Option<String>)
    ensures
        opt_text(out) == opt_text(*o),
{
    match o {
        Some(s) => Some(s.clone()),
        None => None,
    }
}

impl DownloadTask {
    /// The peers that the trackers' responses to an announce at time `now`
    /// name, in the order of the responses, each for this download's torrent
    /// and seen at `now`.
    pub fn peers(&self, responses: &Vec<HttpTrackerResponse>, now: u64) -> (out: Vec<Peer>)
        ensures
            peer_models(out@) == peers_upto(responses@, responses@.len() as int),
            forall|i: int|
                0 <= i < out@.len() ==> (#[trigger] out@[i]).info_hash@ == self@.info_hash
                    && out@[i].last_seen == now,
    {
        let mut out: Vec<Peer> = Vec::new();
        let mut r: usize = 0;
        while r < responses.len()
            invariant
                r <= responses@.len(),
                peer_models(out@) == peers_upto(responses@, r as int),
                forall|i: int|
                    0 <= i < out@.len() ==> (#[trigger] out@[i]).info_hash@ == self@.info_hash
                        && out@[i].last_seen == now,
            decreases responses@.len() - r,
        {
            let ghost before = peer_models(out@);
            match &responses[r].peers {
                Some(peers) => {
                    let mut i: usize = 0;
                    while i < peers.len()
                        invariant
                            i <= peers@.len(),
                            peer_models(out@) == before + Seq::new(
                                i as nat,
                                |k: int| offered(peers@[k]),
                            ),
                            forall|k: int|
                                0 <= k < out@.len() ==> (#[trigger] out@[k]).info_hash@
                                    == self@.info_hash && out@[k].last_seen == now,
                        decreases peers@.len() - i,
                    {
                        let ghost models = peer_models(out@);
                        let ghost old_out = out@;
                        out.push(
                            Peer {
                                peer_id: copy_opt(&peers[i].peer_id),
                                ip: copy_opt(&peers[i].ip),
                                port: peers[i].port,
                                info_hash: copy_bytes(self.info_hash.as_slice()),
                                last_seen: now,
                            },
                        );
                        i += 1;
                        assert(peer_models(out@) =~= before + Seq::new(
                            i as nat,
                            |k: int| offered(peers@[k]),
                        )) by {
                            let want = before + Seq::new(i as nat, |k: int| offered(peers@[k]));
                            assert(out@.len() == old_out.len() + 1);
                            assert(models.len() == old_out.len());
                            assert(models.len() == before.len() + i - 1);
                            assert forall|k: int| 0 <= k < out@.len() implies peer_models(out@)[k]
                                == want[k] by {
                                if k < old_out.len() {
                                    assert(out@[k] == old_out[k]);
                                    assert(peer_models(out@)[k] == models[k]);
                                } else {
                                    assert(peer_models(out@)[k] == offered(peers@[i - 1]));
                                }
                            }
                        }
                    }
                },
                None => {
                    assert(peer_models(out@) =~= before + Seq::<PeerModel>::empty());
                },
            }
            r += 1;
        }
        out
    }
}

} // verus!
