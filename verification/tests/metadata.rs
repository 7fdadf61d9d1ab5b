use sha1::{Digest, Sha1};
use torrentwork::error::EngineError;
use torrentwork::file::TorrentFile;
use torrentwork::hashing::{bytes_equal, sha1_hex};
use torrentwork::magnet::Magnet;
use torrentwork::torrent::{info_hash, split_hashes, File, Info, Torrent, TorrentMetadata};

fn digest(data: &[u8]) -> Vec<u8> {
    let mut hasher = Sha1::new();
    hasher.update(data);
    hasher.finalize().to_vec()
}

fn descriptor(piece_length: i64, length: Option<i64>, pieces: Vec<u8>) -> Torrent {
    Torrent {
        info: Info {
            name: String::from("sample.bin"),
            pieces,
            piece_length,
            md5sum: None,
            length,
            files: None,
            private: None,
            path: None,
            root_hash: None,
            tracker_response_list: None,
        },
        announce: Some(String::from("http://tracker.example/announce")),
        nodes: None,
        encoding: None,
        httpseeds: None,
        announce_list: None,
        creation_date: None,
        comment: None,
        created_by: None,
    }
}

fn listed(path: &str, length: i64) -> File {
    File { path: vec![String::from(path)], length, md5sum: None, tracker_response_list: None }
}

#[test]
fn sha1_hex_of_known_inputs() {
    assert_eq!(sha1_hex(b""), "da39a3ee5e6b4b0d3255bfef95601890afd80709");
    assert_eq!(sha1_hex(b"abc"), "a9993e364706816aba3e25717850c26c9cd0d89d");
}

#[test]
fn info_hash_is_the_raw_digest_of_the_info_bytes() {
    let bytes = b"d6:lengthi20000e4:name10:sample.bine";
    let hash = info_hash(bytes);
    assert_eq!(hash.len(), 20);
    assert_eq!(hash, digest(bytes));
    assert_ne!(hash, bytes.to_vec());
}

#[test]
fn info_hash_is_stable_across_reparsing() {
    let bytes = b"d6:lengthi20000e4:name10:sample.bine".to_vec();
    let again = bytes.clone();
    assert_eq!(info_hash(&bytes), info_hash(&again));
    let pieces = [digest(b"a"), digest(b"b")].concat();
    let first = TorrentMetadata::from_descriptor(&descriptor(16384, Some(20000), pieces.clone()), &bytes)
        .unwrap();
    let second = TorrentMetadata::from_descriptor(&descriptor(16384, Some(20000), pieces), &again)
        .unwrap();
    assert_eq!(first.info_hash(), second.info_hash());
    assert_eq!(first.info_hash(), &digest(&bytes));
}

#[test]
fn info_hash_differs_for_other_bytes() {
    assert_ne!(info_hash(b"d4:name1:ae"), info_hash(b"d4:name1:be"));
}

#[test]
fn metadata_of_a_two_piece_torrent() {
    let pieces = [digest(b"a"), digest(b"b")].concat();
    let meta =
        TorrentMetadata::from_descriptor(&descriptor(16384, Some(20000), pieces), b"info").unwrap();
    assert_eq!(meta.piece_count(), 2);
    assert_eq!(meta.piece_length(), 16384);
    assert_eq!(meta.total_length(), 20000);
    assert_eq!(meta.piece_len(0), 16384);
    assert_eq!(meta.piece_len(1), 3616);
    assert_eq!(meta.piece_hash(0), &digest(b"a"));
    assert_eq!(meta.piece_hash(1), &digest(b"b"));
    assert_eq!(meta.files().len(), 1);
    assert_eq!(meta.files()[0].length, 20000);
    assert_eq!(meta.files()[0].path, vec![String::from("sample.bin")]);
    assert_eq!(meta.name(), "sample.bin");
    assert_eq!(
        meta.announce_tiers(),
        &vec![vec![String::from("http://tracker.example/announce")]]
    );
}

#[test]
fn metadata_takes_the_announce_list_as_tiers() {
    let mut t = descriptor(16384, Some(16384), digest(b"a"));
    t.announce_list = Some(vec![
        vec![String::from("http://a/announce"), String::from("udp://b:80")],
        vec![String::from("http://c/announce")],
    ]);
    let meta = TorrentMetadata::from_descriptor(&t, b"info").unwrap();
    assert_eq!(meta.announce_tiers().len(), 2);
    assert_eq!(meta.announce_tiers()[0].len(), 2);
    assert_eq!(meta.announce_tiers()[1][0], "http://c/announce");
}

#[test]
fn metadata_sums_the_files_of_a_multi_file_torrent() {
    let mut t = descriptor(100, None, [digest(b"a"), digest(b"b"), digest(b"c")].concat());
    t.info.files = Some(vec![listed("a", 120), listed("b", 0), listed("c", 130)]);
    let meta = TorrentMetadata::from_descriptor(&t, b"info").unwrap();
    assert_eq!(meta.total_length(), 250);
    assert_eq!(meta.piece_count(), 3);
    assert_eq!(meta.piece_len(2), 50);
    assert_eq!(meta.files().len(), 3);
}

#[test]
fn metadata_rejects_piece_hashes_that_are_not_whole() {
    let mut pieces = digest(b"a");
    pieces.push(7);
    let out = TorrentMetadata::from_descriptor(&descriptor(16384, Some(100), pieces), b"info");
    assert!(matches!(out, Err(EngineError::MalformedMetadata)));
}

#[test]
fn metadata_rejects_a_descriptor_without_content() {
    let out = TorrentMetadata::from_descriptor(&descriptor(16384, None, digest(b"a")), b"info");
    assert!(matches!(out, Err(EngineError::MalformedMetadata)));
}

#[test]
fn metadata_rejects_a_piece_length_that_is_not_positive() {
    let zero = TorrentMetadata::from_descriptor(&descriptor(0, Some(100), digest(b"a")), b"info");
    assert!(matches!(zero, Err(EngineError::MalformedMetadata)));
    let negative =
        TorrentMetadata::from_descriptor(&descriptor(-5, Some(100), digest(b"a")), b"info");
    assert!(matches!(negative, Err(EngineError::MalformedMetadata)));
}

#[test]
fn metadata_rejects_a_wrong_number_of_piece_hashes() {
    let one = TorrentMetadata::from_descriptor(&descriptor(16384, Some(20000), digest(b"a")), b"i");
    assert!(matches!(one, Err(EngineError::MalformedMetadata)));
    let three = [digest(b"a"), digest(b"b"), digest(b"c")].concat();
    let out = TorrentMetadata::from_descriptor(&descriptor(16384, Some(20000), three), b"i");
    assert!(matches!(out, Err(EngineError::MalformedMetadata)));
}

#[test]
fn metadata_rejects_a_negative_length() {
    let out = TorrentMetadata::from_descriptor(&descriptor(16384, Some(-1), Vec::new()), b"info");
    assert!(matches!(out, Err(EngineError::MalformedMetadata)));
}

#[test]
fn metadata_accepts_an_empty_torrent() {
    let meta =
        TorrentMetadata::from_descriptor(&descriptor(16384, Some(0), Vec::new()), b"info").unwrap();
    assert_eq!(meta.piece_count(), 0);
    assert_eq!(meta.total_length(), 0);
}

#[test]
fn split_hashes_cuts_twenty_bytes_each() {
    let bytes: Vec<u8> = (0u8..40).collect();
    let hashes = split_hashes(&bytes).unwrap();
    assert_eq!(hashes.len(), 2);
    assert_eq!(hashes[0], (0u8..20).collect::<Vec<u8>>());
    assert_eq!(hashes[1], (20u8..40).collect::<Vec<u8>>());
    assert!(split_hashes(&bytes[..39]).is_none());
}

#[test]
fn bytes_equal_compares_contents() {
    assert!(bytes_equal(b"abc", b"abc"));
    assert!(!bytes_equal(b"abc", b"abd"));
    assert!(!bytes_equal(b"abc", b"ab"));
    assert!(bytes_equal(b"", b""));
}

#[test]
fn engine_errors_are_classified() {
    assert!(EngineError::MalformedMetadata.is_fatal());
    assert!(EngineError::StorageFailed.is_fatal());
    assert!(!EngineError::TrackerUnreachable.is_fatal());
    assert!(!EngineError::PieceVerificationFailed.is_fatal());
    assert!(EngineError::HandshakeMismatch.is_peer_local());
    assert!(EngineError::ProtocolViolation.is_peer_local());
    assert!(!EngineError::StorageFailed.is_peer_local());
}

#[test]
fn torrent_file_of_a_descriptor() {
    let mut t = descriptor(16384, Some(20000), [digest(b"a"), digest(b"b")].concat());
    t.announce_list = Some(vec![
        vec![String::from("http://a/announce"), String::from("udp://b:80")],
        vec![String::from("http://c/announce")],
    ]);
    let tf = TorrentFile::new(t, b"info").unwrap();
    assert_eq!(tf.info_hash, digest(b"info"));
    assert_eq!(
        tf.announces,
        vec![
            String::from("http://tracker.example/announce"),
            String::from("http://a/announce"),
            String::from("udp://b:80"),
            String::from("http://c/announce"),
        ]
    );
    assert!(!tf.is_multiple_files);
    assert_eq!(tf.storage_path, ".");
    assert!(tf.peers.is_none());
    assert_eq!(tf.downloads.as_ref().map(|d| d.len()), Some(0));
}

#[test]
fn torrent_file_rejects_a_malformed_descriptor() {
    let out = TorrentFile::new(descriptor(0, Some(20000), digest(b"a")), b"info");
    assert!(matches!(out, Err(EngineError::MalformedMetadata)));
}

#[test]
fn torrent_file_without_announce_list_has_one_announce() {
    let tf = TorrentFile::new(descriptor(16384, Some(16384), digest(b"a")), b"info").unwrap();
    assert_eq!(tf.announces, vec![String::from("http://tracker.example/announce")]);
    assert_eq!(
        TorrentFile::get_all_announce(&descriptor(1, Some(1), digest(b"a"))),
        vec![String::from("http://tracker.example/announce")]
    );
}

#[test]
fn torrent_file_knows_multiple_files() {
    let mut t = descriptor(100, None, [digest(b"a"), digest(b"b")].concat());
    assert!(!TorrentFile::is_multiple_files(&t));
    t.info.files = Some(vec![listed("a", 120), listed("b", 80)]);
    assert!(TorrentFile::is_multiple_files(&t));
    let mut tf = TorrentFile::new(t, b"info").unwrap();
    assert!(tf.is_multiple_files);
    tf.ready_to_download();
    assert_eq!(tf.downloads.as_ref().unwrap().len(), 1);
    assert_eq!(tf.download(), Ok(String::from("done")));
    assert_eq!(tf.storage_path, ".\\sample.bin");
    let task = &tf.downloads.as_ref().unwrap()[0];
    assert_eq!(task.status(), torrentwork::download::DownloadStatus::DOWNLOADING);
    assert_eq!(task.info_hash(), &digest(b"info"));
}

#[test]
fn torrent_file_sets_the_storage_path() {
    let mut tf = TorrentFile::new(descriptor(16384, Some(16384), digest(b"a")), b"info").unwrap();
    assert_eq!(tf.set_storage_path(String::from("/data")), Ok(()));
    assert_eq!(tf.storage_path, "/data");
    assert_eq!(tf.download(), Ok(String::from("done")));
    assert_eq!(tf.storage_path, "/data");
}

#[test]
fn magnet_link_of_a_torrent_file() {
    let tf = TorrentFile::new(descriptor(16384, Some(16384), digest(b"a")), b"abc").unwrap();
    assert_eq!(
        tf.make_magnet_url(),
        Ok(String::from(
            "magnet:?xt=urn:btih:a9993e364706816aba3e25717850c26c9cd0d89d&dn=sample.bin"
        ))
    );
}

#[test]
fn magnet_pattern_accepts_forty_hex_digits() {
    let link = "magnet:?xt=urn:btih:a9993e364706816aba3e25717850c26c9cd0d89d&dn=sample.bin";
    assert_eq!(Magnet::new(link), Ok(String::from("1")));
}

#[test]
fn magnet_pattern_rejects_other_text() {
    assert_eq!(Magnet::new("https://example.com"), Err(String::from("link format error")));
    assert_eq!(
        Magnet::new("magnet:?xt=urn:btih:a9993e36"),
        Err(String::from("link format error"))
    );
    assert_eq!(
        Magnet::new("magnet:?xt=urn:btih:zz993e364706816aba3e25717850c26c9cd0d89d"),
        Err(String::from("link format error"))
    );
}

#[test]
fn magnet_verdict_follows_the_match() {
    assert_eq!(Magnet::verdict(Some(true)), Ok(String::from("1")));
    assert_eq!(Magnet::verdict(Some(false)), Err(String::from("link format error")));
    assert_eq!(Magnet::verdict(None), Err(String::from("link format error")));
}

#[test]
fn file_and_info_setters_replace_their_fields() {
    let mut file = listed("a", 5);
    file.set_tracker_response_list(Some(Vec::new()));
    assert_eq!(file.tracker_response_list.as_ref().map(|l| l.len()), Some(0));
    assert_eq!(file.length, 5);
    let mut t = descriptor(100, None, Vec::new());
    t.info.set_files(vec![listed("a", 1), listed("b", 2)]);
    assert_eq!(t.info.files.as_ref().unwrap().len(), 2);
    t.info.set_tracker_response_list(Some(Vec::new()));
    assert!(t.info.tracker_response_list.is_some());
    assert_eq!(t.info.name, "sample.bin");
}
