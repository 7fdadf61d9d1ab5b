use sha1::{Digest, Sha1};
use torrentwork::connection::{ConnectionEvent, PeerConnection};
use torrentwork::download::{
    DownloadProgress, DownloadStatus, DownloadTask, TaskAction, LOW_WATER, MAX_PEERS,
};
use torrentwork::error::EngineError;
use torrentwork::file::TorrentFile;
use torrentwork::peer::{Decoded, Handshake, Peer, PeerMessage};
use torrentwork::piece::{
    BlockRequest, BlockState, FileWrite, PieceManager, PieceStatus, SubmitOutcome,
};
use torrentwork::torrent::{File, Info, Torrent, TorrentMetadata};
use torrentwork::tracker::tracker::Tracker;
use torrentwork::tracker::AnnounceEvent;

fn sha(data: &[u8]) -> Vec<u8> {
    let mut hasher = Sha1::new();
    hasher.update(data);
    hasher.finalize().to_vec()
}

fn content() -> Vec<u8> {
    (0..20000usize).map(|i| (i * 7 % 253) as u8).collect()
}

fn descriptor(data: &[u8]) -> Torrent {
    let pieces = [sha(&data[..16384]), sha(&data[16384..])].concat();
    Torrent {
        info: Info {
            name: String::from("sample.bin"),
            pieces,
            piece_length: 16384,
            md5sum: None,
            length: Some(20000),
            files: None,
            private: None,
            path: None,
            root_hash: None,
            tracker_response_list: None,
        },
        announce: Some(String::from("http://tracker.example/announce")),
        nodes: None,
        encoding: None,
        httpseeds: None,
        announce_list: None,
        creation_date: None,
        comment: None,
        created_by: None,
    }
}

fn task_for(tf: &TorrentFile) -> DownloadTask {
    let file = File {
        path: vec![String::from("sample.bin")],
        length: 20000,
        md5sum: None,
        tracker_response_list: None,
    };
    DownloadTask::new(tf.info_hash.clone(), file, Tracker::new(tf), 2)
}

fn connect(info_hash: &[u8], pieces: usize) -> PeerConnection {
    let ours = Handshake::new(info_hash, b"-TW0001-000000000001");
    let theirs = Handshake::new(info_hash, b"-TW0001-000000000002").to_bytes();
    let mut connection = PeerConnection::new(pieces);
    connection.handshake_sent();
    assert_eq!(connection.on_handshake(&ours, &theirs), Ok(()));
    assert_eq!(
        connection.on_message(&PeerMessage::Bitfield { bits: vec![0b1100_0000] }),
        ConnectionEvent::PeerBitfield
    );
    connection.on_message(&PeerMessage::Unchoke);
    connection
}

fn one_peer() -> Vec<Peer> {
    vec![Peer {
        peer_id: None,
        ip: Some(String::from("10.0.0.7")),
        port: Some(6881),
        info_hash: Vec::new(),
        last_seen: 0,
    }]
}

/// Sends `request` to a peer that holds `data` and hands back what comes
/// over the wire, corrupted where `corrupt` says so.
fn serve(request: &BlockRequest, data: &[u8], corrupt: bool) -> PeerMessage {
    let start = request.piece as usize * 16384 + request.offset as usize;
    let mut block = data[start..start + request.length as usize].to_vec();
    if corrupt {
        block[0] ^= 0xff;
    }
    let wire = PeerMessage::Piece { piece: request.piece, offset: request.offset, block }
        .encode()
        .unwrap();
    match PeerMessage::decode(&wire, 1 << 17) {
        Decoded::Message { message, used } => {
            assert_eq!(used, wire.len());
            message
        }
        other => panic!("the frame did not decode: {:?}", other),
    }
}

#[test]
fn two_piece_download_from_one_peer_finishes() {
    let data = content();
    let tf = TorrentFile::new(descriptor(&data), b"info").unwrap();
    let meta = TorrentMetadata::from_descriptor(&tf.meta_data, b"info").unwrap();
    let mut manager = PieceManager::new(&meta);
    let mut task = task_for(&tf);
    assert_eq!(task.status(), DownloadStatus::WAITING);
    assert_eq!(task.start(), TaskAction::Announce(AnnounceEvent::Started));
    assert_eq!(task.status(), DownloadStatus::DOWNLOADING);
    assert_eq!(task.admit_peers(one_peer()), 1);
    let mut connection = connect(&tf.info_hash, 2);
    manager.peer_joined(connection.bitfield());

    let mut stored = vec![0u8; 20000];
    let mut completions = 0;
    let mut now = 0;
    while !manager.is_finished() {
        now += 1;
        assert!(connection.can_request());
        let request = manager.next_block_to_request(connection.bitfield(), now).unwrap();
        connection.request_sent(request, now);
        let message = serve(&request, &data, false);
        assert_eq!(connection.on_message(&message), ConnectionEvent::Deliver);
        let (piece, offset, block) = match message {
            PeerMessage::Piece { piece, offset, block } => (piece, offset, block),
            other => panic!("not a block: {:?}", other),
        };
        match manager.submit_block(1, piece, offset, &block) {
            SubmitOutcome::Completed { piece, data: bytes, writes } => {
                for w in &writes {
                    let from = w.data_offset as usize;
                    let to = w.file_offset as usize;
                    let len = w.length as usize;
                    assert_eq!(w.file, 0);
                    stored[to..to + len].copy_from_slice(&bytes[from..from + len]);
                }
                let action = task.piece_verified(bytes.len() as u64);
                completions += 1;
                if manager.is_finished() {
                    assert_eq!(action, TaskAction::Complete);
                } else {
                    assert_eq!(action, TaskAction::Nothing);
                }
                assert_eq!(manager.status(piece as usize), PieceStatus::Verified);
            }
            other => panic!("unexpected outcome: {:?}", other),
        }
    }
    assert_eq!(completions, 2);
    assert_eq!(task.status(), DownloadStatus::FINISH);
    assert_eq!(task.downloaded(), 20000);
    assert_eq!(
        task.progress(),
        DownloadProgress {
            downloaded: 20000,
            total: 20000,
            verified_pieces: 2,
            status: DownloadStatus::FINISH,
            stalled: false,
        }
    );
    assert_eq!(stored, data);
    assert!(connection.close().is_empty());
    assert_eq!(task.piece_verified(5), TaskAction::Nothing);
    assert_eq!(task.downloaded(), 20000);
}

#[test]
fn corrupt_piece_stays_missing() {
    let data = content();
    let tf = TorrentFile::new(descriptor(&data), b"info").unwrap();
    let meta = TorrentMetadata::from_descriptor(&tf.meta_data, b"info").unwrap();
    let mut manager = PieceManager::new(&meta);
    let mut task = task_for(&tf);
    task.start();
    let mut connection = connect(&tf.info_hash, 2);
    let request = manager.next_block_to_request(connection.bitfield(), 1).unwrap();
    assert_eq!(request, BlockRequest { piece: 0, offset: 0, length: 16384 });
    connection.request_sent(request, 1);
    let message = serve(&request, &data, true);
    assert_eq!(connection.on_message(&message), ConnectionEvent::Deliver);
    let block = match message {
        PeerMessage::Piece { block, .. } => block,
        other => panic!("not a block: {:?}", other),
    };
    let outcome = manager.submit_block(1, 0, 0, &block);
    assert_eq!(outcome, SubmitOutcome::Corrupt { piece: 0, suspect: 1, ban: None });
    assert_eq!(outcome.failure(), Some(EngineError::PieceVerificationFailed));
    assert_eq!(task.on_error(EngineError::PieceVerificationFailed), TaskAction::Nothing);
    assert_eq!(SubmitOutcome::Stored.failure(), None);
    assert_eq!(manager.status(0), PieceStatus::Missing);
    assert_eq!(manager.block_state(0, 0), Some(BlockState::Free));
    assert_eq!(manager.corrupted(), 1);
    assert_eq!(manager.verified_count(), 0);
    assert_eq!(task.status(), DownloadStatus::DOWNLOADING);
    assert_eq!(task.downloaded(), 0);
    assert_eq!(
        manager.next_block_to_request(connection.bitfield(), 2),
        Some(BlockRequest { piece: 0, offset: 0, length: 16384 })
    );
}

#[test]
fn blocks_of_a_lost_peer_go_to_a_new_peer() {
    let data = content();
    let tf = TorrentFile::new(descriptor(&data), b"info").unwrap();
    let meta = TorrentMetadata::from_descriptor(&tf.meta_data, b"info").unwrap();
    let mut manager = PieceManager::new(&meta);
    let mut task = task_for(&tf);
    task.start();
    assert_eq!(task.admit_peers(one_peer()), 1);
    let mut first = connect(&tf.info_hash, 2);
    manager.peer_joined(first.bitfield());
    let mut asked = Vec::new();
    while first.can_request() {
        match manager.next_block_to_request(first.bitfield(), 1) {
            Some(request) => {
                first.request_sent(request, 1);
                asked.push(request);
            }
            None => break,
        }
    }
    assert_eq!(
        asked,
        vec![
            BlockRequest { piece: 0, offset: 0, length: 16384 },
            BlockRequest { piece: 1, offset: 0, length: 3616 },
        ]
    );
    assert_eq!(manager.next_block_to_request(&vec![true, true], 1), None);

    let lost = first.close();
    assert_eq!(lost, asked);
    manager.peer_left(first.bitfield());
    for request in &lost {
        assert!(manager.release(request.piece, request.offset, request.length));
    }
    assert_eq!(task.peer_closed(), TaskAction::Announce(AnnounceEvent::Periodic));
    assert!(!task.is_stalled());
    task.announce_failed(100);
    assert!(task.is_stalled());
    assert!(task.progress().stalled);
    assert_eq!(task.status(), DownloadStatus::DOWNLOADING);
    assert_eq!(manager.status(0), PieceStatus::Missing);
    assert_eq!(manager.status(1), PieceStatus::Missing);

    assert_eq!(task.tick(159), TaskAction::Nothing);
    assert_eq!(task.tick(160), TaskAction::Announce(AnnounceEvent::Periodic));
    task.announce_answered(161, 1800);
    assert_eq!(task.admit_peers(one_peer()), 1);
    assert!(!task.is_stalled());
    let mut second = connect(&tf.info_hash, 2);
    manager.peer_joined(second.bitfield());
    let again = manager.next_block_to_request(second.bitfield(), 2).unwrap();
    assert_eq!(again, BlockRequest { piece: 0, offset: 0, length: 16384 });
    second.request_sent(again, 2);
    let block = match serve(&again, &data, false) {
        PeerMessage::Piece { block, .. } => block,
        other => panic!("not a block: {:?}", other),
    };
    assert_eq!(
        manager.submit_block(2, 0, 0, &block),
        SubmitOutcome::Completed {
            piece: 0,
            data: data[..16384].to_vec(),
            writes: vec![FileWrite { file: 0, file_offset: 0, data_offset: 0, length: 16384 }],
        }
    );
}

#[test]
fn orchestrator_limits_its_peers() {
    let data = content();
    let tf = TorrentFile::new(descriptor(&data), b"info").unwrap();
    let mut task = task_for(&tf);
    assert_eq!(task.admit_peers(one_peer()), 0);
    task.start();
    assert_eq!(task.start(), TaskAction::Nothing);
    let many: Vec<Peer> = (0..MAX_PEERS + 10).flat_map(|_| one_peer()).collect();
    assert_eq!(task.admit_peers(many), MAX_PEERS);
    assert_eq!(task.admit_peers(one_peer()), 0);
    for _ in 0..MAX_PEERS - LOW_WATER {
        assert_eq!(task.peer_closed(), TaskAction::Nothing);
    }
    assert_eq!(task.peer_closed(), TaskAction::Announce(AnnounceEvent::Periodic));
    assert_eq!(task.admit_peers(one_peer()), 1);
}

#[test]
fn orchestrator_counts_progress_in_percent() {
    let data = content();
    let tf = TorrentFile::new(descriptor(&data), b"info").unwrap();
    let mut task = task_for(&tf);
    task.start();
    assert_eq!(task.piece_verified(16384), TaskAction::Nothing);
    assert_eq!(
        task.progress(),
        DownloadProgress {
            downloaded: 16384,
            total: 20000,
            verified_pieces: 1,
            status: DownloadStatus::DOWNLOADING,
            stalled: false,
        }
    );
    assert_eq!(task.piece_verified(3616), TaskAction::Complete);
    assert_eq!(task.status(), DownloadStatus::FINISH);
    assert_eq!(task.peer_closed(), TaskAction::Nothing);
    let mut other = task_for(&tf);
    other.update_progress(40);
    other.update_progress(70);
    other.update_progress(u16::MAX);
}

#[test]
fn download_without_pieces_is_finished_at_once() {
    let data = content();
    let tf = TorrentFile::new(descriptor(&data), b"info").unwrap();
    let file = File { path: Vec::new(), length: 0, md5sum: None, tracker_response_list: None };
    let mut task = DownloadTask::new(tf.info_hash.clone(), file, Tracker::new(&tf), 0);
    assert_eq!(task.start(), TaskAction::Complete);
    assert_eq!(task.status(), DownloadStatus::FINISH);
}

#[test]
fn shutdown_is_idempotent_and_keeps_what_was_verified() {
    let data = content();
    let tf = TorrentFile::new(descriptor(&data), b"info").unwrap();
    let mut task = task_for(&tf);
    assert_eq!(task.shutdown(), TaskAction::Nothing);
    task.start();
    assert_eq!(task.admit_peers(one_peer()), 1);
    assert_eq!(task.piece_verified(16384), TaskAction::Nothing);
    assert_eq!(task.shutdown(), TaskAction::Stop);
    assert_eq!(task.status(), DownloadStatus::WAITING);
    assert_eq!(task.shutdown(), TaskAction::Nothing);
    assert_eq!(task.progress().verified_pieces, 1);
    assert_eq!(task.downloaded(), 16384);
    assert_eq!(task.start(), TaskAction::Announce(AnnounceEvent::Started));
    assert_eq!(task.piece_verified(3616), TaskAction::Complete);
    assert_eq!(task.shutdown(), TaskAction::Nothing);
    assert_eq!(task.status(), DownloadStatus::FINISH);
}

#[test]
fn periodic_announces_follow_the_trackers_interval() {
    let data = content();
    let tf = TorrentFile::new(descriptor(&data), b"info").unwrap();
    let mut task = task_for(&tf);
    assert_eq!(task.tick(u64::MAX), TaskAction::Nothing);
    assert_eq!(task.start(), TaskAction::Announce(AnnounceEvent::Started));
    assert_eq!(task.tick(5), TaskAction::Nothing);
    task.announce_answered(10, 900);
    assert_eq!(task.tick(909), TaskAction::Nothing);
    assert_eq!(task.tick(910), TaskAction::Announce(AnnounceEvent::Periodic));
    assert_eq!(task.tick(911), TaskAction::Nothing);
    assert_eq!(task.tick(970), TaskAction::Announce(AnnounceEvent::Periodic));
    task.announce_answered(971, u64::MAX);
    assert_eq!(task.tick(u64::MAX - 1), TaskAction::Nothing);
    task.announce_answered(971, 30);
    task.piece_verified(16384);
    assert_eq!(task.piece_verified(3616), TaskAction::Complete);
    assert_eq!(task.tick(5000), TaskAction::Nothing);
}

#[test]
fn storage_failure_halts_the_session() {
    let data = content();
    let tf = TorrentFile::new(descriptor(&data), b"info").unwrap();
    let mut task = task_for(&tf);
    task.start();
    task.piece_verified(16384);
    assert_eq!(task.on_error(EngineError::TrackerUnreachable), TaskAction::Nothing);
    assert_eq!(task.on_error(EngineError::HandshakeMismatch), TaskAction::Nothing);
    assert_eq!(task.on_error(EngineError::ProtocolViolation), TaskAction::Nothing);
    assert_eq!(task.status(), DownloadStatus::DOWNLOADING);
    assert_eq!(task.on_error(EngineError::StorageFailed), TaskAction::Stop);
    assert_eq!(task.status(), DownloadStatus::WAITING);
    assert_eq!(task.progress().verified_pieces, 1);
    assert_eq!(task.on_error(EngineError::StorageFailed), TaskAction::Nothing);
}
