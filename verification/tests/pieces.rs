use sha1::{Digest, Sha1};
use torrentwork::piece::{
    map_to_files, BlockRequest, BlockState, FileWrite, PieceManager, PieceStatus, Placement,
    SubmitOutcome, BAN_THRESHOLD, BLOCK_SIZE,
};
use torrentwork::torrent::{File, Info, Torrent, TorrentMetadata};

fn sha(data: &[u8]) -> Vec<u8> {
    let mut hasher = Sha1::new();
    hasher.update(data);
    hasher.finalize().to_vec()
}

fn content(len: usize) -> Vec<u8> {
    (0..len).map(|i| (i % 251) as u8).collect()
}

fn manager_for(piece_length: usize, data: &[u8], files: Option<Vec<i64>>) -> PieceManager {
    let mut pieces = Vec::new();
    for chunk in data.chunks(piece_length) {
        pieces.extend_from_slice(&sha(chunk));
    }
    let listed = files.map(|lengths| {
        lengths
            .iter()
            .enumerate()
            .map(|(i, length)| File {
                path: vec![format!("f{}", i)],
                length: *length,
                md5sum: None,
                tracker_response_list: None,
            })
            .collect::<Vec<File>>()
    });
    let t = Torrent {
        info: Info {
            name: String::from("content"),
            pieces,
            piece_length: piece_length as i64,
            md5sum: None,
            length: if listed.is_none() { Some(data.len() as i64) } else { None },
            files: listed,
            private: None,
            path: None,
            root_hash: None,
            tracker_response_list: None,
        },
        announce: None,
        nodes: None,
        encoding: None,
        httpseeds: None,
        announce_list: None,
        creation_date: None,
        comment: None,
        created_by: None,
    };
    let meta = TorrentMetadata::from_descriptor(&t, b"info").unwrap();
    PieceManager::new(&meta)
}

fn request(piece: u32, offset: u32, length: u32) -> BlockRequest {
    BlockRequest { piece, offset, length }
}

#[test]
fn fresh_manager_has_every_piece_missing() {
    let m = manager_for(16384, &content(20000), None);
    assert_eq!(m.piece_count(), 2);
    assert_eq!(m.status(0), PieceStatus::Missing);
    assert_eq!(m.status(1), PieceStatus::Missing);
    assert_eq!(m.piece_len(0), 16384);
    assert_eq!(m.piece_len(1), 3616);
    assert_eq!(m.corrupted(), 0);
    assert_eq!(m.verified_count(), 0);
    assert!(!m.is_finished());
    assert_eq!(m.availability(0), 0);
    assert_eq!(m.block_state(0, 0), Some(BlockState::Free));
    assert_eq!(m.block_state(0, 16384), None);
    assert_eq!(m.block_state(2, 0), None);
    assert_eq!(m.block_state(0, 5), None);
}

#[test]
fn requests_walk_the_blocks_of_a_piece_in_order() {
    let mut m = manager_for(40000, &content(40000), None);
    let has = vec![true];
    assert_eq!(m.next_block_to_request(&has, 1), Some(request(0, 0, 16384)));
    assert_eq!(m.status(0), PieceStatus::InFlight);
    assert_eq!(m.block_state(0, 0), Some(BlockState::Requested { at: 1 }));
    assert_eq!(m.next_block_to_request(&has, 2), Some(request(0, 16384, 16384)));
    assert_eq!(m.next_block_to_request(&has, 3), Some(request(0, 32768, 7232)));
    assert_eq!(m.next_block_to_request(&has, 4), None);
    assert_eq!(m.block_state(0, 32768), Some(BlockState::Requested { at: 3 }));
}

#[test]
fn nothing_is_requested_from_a_peer_without_pieces() {
    let mut m = manager_for(16384, &content(20000), None);
    assert_eq!(m.next_block_to_request(&vec![false, false], 1), None);
    assert_eq!(m.next_block_to_request(&Vec::new(), 1), None);
    assert_eq!(m.status(0), PieceStatus::Missing);
}

#[test]
fn rarest_piece_is_requested_first() {
    let mut m = manager_for(16384, &content(16384 * 3), None);
    m.peer_joined(&vec![true, true, false]);
    m.peer_joined(&vec![true, false, true]);
    m.peer_joined(&vec![true, false, true]);
    assert_eq!(m.availability(0), 3);
    assert_eq!(m.availability(1), 1);
    assert_eq!(m.availability(2), 2);
    let all = vec![true, true, true];
    assert_eq!(m.next_block_to_request(&all, 0), Some(request(1, 0, 16384)));
    assert_eq!(m.next_block_to_request(&all, 0), Some(request(2, 0, 16384)));
    assert_eq!(m.next_block_to_request(&all, 0), Some(request(0, 0, 16384)));
    assert_eq!(m.next_block_to_request(&all, 0), None);
}

#[test]
fn rarest_piece_is_chosen_among_those_the_peer_has() {
    let mut m = manager_for(16384, &content(16384 * 3), None);
    m.peer_joined(&vec![true, false, true]);
    m.peer_joined(&vec![true, false, false]);
    assert_eq!(m.next_block_to_request(&vec![true, false, true], 0), Some(request(2, 0, 16384)));
}

#[test]
fn equally_rare_pieces_go_by_lowest_index() {
    let mut m = manager_for(16384, &content(16384 * 3), None);
    m.peer_joined(&vec![true, true, true]);
    let all = vec![true, true, true];
    assert_eq!(m.next_block_to_request(&all, 0), Some(request(0, 0, 16384)));
    assert_eq!(m.next_block_to_request(&all, 0), Some(request(1, 0, 16384)));
    assert_eq!(m.next_block_to_request(&all, 0), Some(request(2, 0, 16384)));
}

#[test]
fn availability_follows_peers_and_haves() {
    let mut m = manager_for(16384, &content(16384 * 2), None);
    m.peer_joined(&vec![true, false]);
    m.peer_has(1);
    m.peer_has(1);
    m.peer_has(9);
    assert_eq!(m.availability(0), 1);
    assert_eq!(m.availability(1), 2);
    m.peer_left(&vec![true, true]);
    assert_eq!(m.availability(0), 0);
    assert_eq!(m.availability(1), 1);
    m.peer_left(&vec![true, false]);
    assert_eq!(m.availability(0), 0);
}

#[test]
fn released_block_is_requestable_by_another_peer() {
    let mut m = manager_for(40000, &content(40000), None);
    let first_peer = vec![true];
    assert_eq!(m.next_block_to_request(&first_peer, 1), Some(request(0, 0, 16384)));
    assert_eq!(m.next_block_to_request(&first_peer, 1), Some(request(0, 16384, 16384)));
    assert!(m.release(0, 0, 16384));
    assert_eq!(m.block_state(0, 0), Some(BlockState::Free));
    assert_eq!(m.status(0), PieceStatus::InFlight);
    let other_peer = vec![true];
    assert_eq!(m.next_block_to_request(&other_peer, 2), Some(request(0, 0, 16384)));
}

#[test]
fn releasing_the_last_block_makes_the_piece_missing() {
    let mut m = manager_for(16384, &content(20000), None);
    assert_eq!(m.next_block_to_request(&vec![false, true], 1), Some(request(1, 0, 3616)));
    assert_eq!(m.status(1), PieceStatus::InFlight);
    assert!(m.release(1, 0, 3616));
    assert_eq!(m.status(1), PieceStatus::Missing);
}

#[test]
fn release_of_what_is_not_requested_changes_nothing() {
    let mut m = manager_for(16384, &content(20000), None);
    assert!(!m.release(0, 0, 16384));
    assert!(!m.release(5, 0, 16384));
    assert!(!m.release(0, 1, 16384));
    assert!(!m.release(0, 0, 100));
    assert_eq!(m.status(0), PieceStatus::Missing);
}

#[test]
fn expired_requests_become_free() {
    let mut m = manager_for(40000, &content(40000), None);
    let has = vec![true];
    m.next_block_to_request(&has, 10);
    m.next_block_to_request(&has, 50);
    m.expire(70, 30);
    assert_eq!(m.block_state(0, 0), Some(BlockState::Free));
    assert_eq!(m.block_state(0, 16384), Some(BlockState::Requested { at: 50 }));
    m.expire(80, 30);
    assert_eq!(m.block_state(0, 16384), Some(BlockState::Requested { at: 50 }));
    m.expire(81, 30);
    assert_eq!(m.block_state(0, 16384), Some(BlockState::Free));
    assert_eq!(m.status(0), PieceStatus::Missing);
}

#[test]
fn blocks_that_cover_a_piece_verify_it_once() {
    let data = content(40000);
    let mut m = manager_for(40000, &data, None);
    assert_eq!(m.submit_block(7, 0, 32768, &data[32768..]), SubmitOutcome::Stored);
    assert_eq!(m.status(0), PieceStatus::InFlight);
    assert_eq!(m.submit_block(7, 0, 0, &data[..16384]), SubmitOutcome::Stored);
    let last = m.submit_block(8, 0, 16384, &data[16384..32768]);
    assert_eq!(
        last,
        SubmitOutcome::Completed {
            piece: 0,
            data: data.clone(),
            writes: vec![FileWrite { file: 0, file_offset: 0, data_offset: 0, length: 40000 }],
        }
    );
    assert_eq!(m.status(0), PieceStatus::Verified);
    assert!(m.is_finished());
    assert_eq!(m.verified_count(), 1);
    assert_eq!(m.submit_block(8, 0, 0, &data[..16384]), SubmitOutcome::Rejected);
    assert_eq!(m.status(0), PieceStatus::Verified);
    assert_eq!(m.corrupted(), 0);
}

#[test]
fn other_bytes_of_full_length_leave_the_piece_missing() {
    let data = content(20000);
    let mut m = manager_for(16384, &data, None);
    let wrong = vec![9u8; 16384];
    assert_eq!(
        m.submit_block(3, 0, 0, &wrong),
        SubmitOutcome::Corrupt { piece: 0, suspect: 3, ban: None }
    );
    assert_eq!(m.status(0), PieceStatus::Missing);
    assert_eq!(m.block_state(0, 0), Some(BlockState::Free));
    assert_eq!(m.corrupted(), 1);
    assert_eq!(m.verified_count(), 0);
    assert!(matches!(m.submit_block(4, 0, 0, &data[..16384]), SubmitOutcome::Completed { .. }));
    assert_eq!(m.status(0), PieceStatus::Verified);
    assert_eq!(m.corrupted(), 1);
}

#[test]
fn sole_source_of_a_repeatedly_failing_piece_is_banned() {
    let data = content(40000);
    let mut m = manager_for(40000, &data, None);
    let wrong = vec![1u8; 16384];
    for round in 1..=BAN_THRESHOLD {
        assert_eq!(m.submit_block(5, 0, 0, &wrong), SubmitOutcome::Stored);
        assert_eq!(m.submit_block(5, 0, 16384, &wrong), SubmitOutcome::Stored);
        let out = m.submit_block(5, 0, 32768, &wrong[..7232]);
        let ban = if round >= BAN_THRESHOLD { Some(5) } else { None };
        assert_eq!(out, SubmitOutcome::Corrupt { piece: 0, suspect: 5, ban });
    }
    assert_eq!(m.corrupted(), BAN_THRESHOLD as u64);
}

#[test]
fn mixed_sources_are_not_banned() {
    let data = content(40000);
    let mut m = manager_for(40000, &data, None);
    let wrong = vec![1u8; 16384];
    for _ in 0..BAN_THRESHOLD + 1 {
        m.submit_block(5, 0, 0, &wrong);
        m.submit_block(6, 0, 16384, &data[16384..32768]);
        let out = m.submit_block(5, 0, 32768, &data[32768..]);
        assert_eq!(out, SubmitOutcome::Corrupt { piece: 0, suspect: 5, ban: None });
    }
}

#[test]
fn blocks_that_name_no_block_are_rejected() {
    let data = content(20000);
    let mut m = manager_for(16384, &data, None);
    assert_eq!(m.submit_block(1, 2, 0, &data[..100]), SubmitOutcome::Rejected);
    assert_eq!(m.submit_block(1, 0, 1, &data[..16384]), SubmitOutcome::Rejected);
    assert_eq!(m.submit_block(1, 0, 0, &data[..100]), SubmitOutcome::Rejected);
    assert_eq!(m.submit_block(1, 1, 0, &data[..16384]), SubmitOutcome::Rejected);
    assert_eq!(m.submit_block(1, 0, 0, &vec![0u8; 20000]), SubmitOutcome::Rejected);
    assert_eq!(m.status(0), PieceStatus::Missing);
    assert_eq!(m.status(1), PieceStatus::Missing);
}

#[test]
fn a_block_that_arrived_is_not_taken_twice() {
    let data = content(40000);
    let mut m = manager_for(40000, &data, None);
    assert_eq!(m.submit_block(1, 0, 0, &data[..16384]), SubmitOutcome::Stored);
    assert_eq!(m.submit_block(2, 0, 0, &data[..16384]), SubmitOutcome::Rejected);
    assert_eq!(m.block_state(0, 0), Some(BlockState::Received { peer: 1 }));
}

#[test]
fn place_then_settle_is_submit() {
    let data = content(20000);
    let mut m = manager_for(16384, &data, None);
    assert_eq!(m.place_block(1, 1, 0, &data[16384..]), Placement::Whole(1));
    let out = m.settle_piece(1, &sha(&data[16384..]));
    assert_eq!(
        out,
        SubmitOutcome::Completed {
            piece: 1,
            data: data[16384..].to_vec(),
            writes: vec![FileWrite { file: 0, file_offset: 16384, data_offset: 0, length: 3616 }],
        }
    );
    assert_eq!(m.place_block(1, 0, 0, &data[..16384]), Placement::Whole(0));
    let bad = m.settle_piece(0, &sha(b"something else"));
    assert_eq!(bad, SubmitOutcome::Corrupt { piece: 0, suspect: 1, ban: None });
    assert_eq!(m.status(0), PieceStatus::Missing);
    assert_eq!(m.place_block(1, 0, 3, &data[..16384]), Placement::Rejected);
}

#[test]
fn pieces_that_straddle_files_are_split_into_writes() {
    let data = content(250);
    let mut m = manager_for(100, &data, Some(vec![120, 0, 30, 100]));
    let out = m.submit_block(1, 1, 0, &data[100..200]);
    assert_eq!(
        out,
        SubmitOutcome::Completed {
            piece: 1,
            data: data[100..200].to_vec(),
            writes: vec![
                FileWrite { file: 0, file_offset: 100, data_offset: 0, length: 20 },
                FileWrite { file: 2, file_offset: 0, data_offset: 20, length: 30 },
                FileWrite { file: 3, file_offset: 0, data_offset: 50, length: 50 },
            ],
        }
    );
}

#[test]
fn ranges_map_to_file_writes() {
    let lengths = vec![10u64, 20, 30];
    assert_eq!(
        map_to_files(&lengths, 5, 30),
        vec![
            FileWrite { file: 0, file_offset: 5, data_offset: 0, length: 5 },
            FileWrite { file: 1, file_offset: 0, data_offset: 5, length: 20 },
            FileWrite { file: 2, file_offset: 0, data_offset: 25, length: 5 },
        ]
    );
    assert_eq!(
        map_to_files(&lengths, 12, 3),
        vec![FileWrite { file: 1, file_offset: 2, data_offset: 0, length: 3 }]
    );
    assert_eq!(map_to_files(&lengths, 12, 0), Vec::new());
    assert_eq!(map_to_files(&Vec::new(), 0, 10), Vec::new());
}

#[test]
fn locate_names_blocks_by_offset_and_length() {
    let m = manager_for(40000, &content(40000), None);
    assert_eq!(m.locate(0, 0, 16384), Some((0, 0)));
    assert_eq!(m.locate(0, 32768, 7232), Some((0, 2)));
    assert_eq!(m.locate(0, 32768, 16384), None);
    assert_eq!(m.locate(0, 49152, 16384), None);
    assert_eq!(m.locate(1, 0, 16384), None);
    assert_eq!(BLOCK_SIZE, 16384);
}
