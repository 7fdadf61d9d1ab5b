use torrentwork::download::DownloadTask;
use torrentwork::error::EngineError;
use torrentwork::file::TorrentFile;
use torrentwork::text::{i64_to_decimal, push_decimal, u64_to_decimal};
use torrentwork::torrent::{File, Info, Torrent};
use torrentwork::tracker::http::{
    announce_url, interpret_response, merge_query, parse_compact_peers, HttpTrackerResponse,
    HttpTrackerRquest, Peer, DEFAULT_INTERVAL,
};
use torrentwork::tracker::tracker::{peer_id, Tracker};
use torrentwork::tracker::upd::{
    push_be64, read_be64, UDPTracker, UdpAction, UdpAnnounce, UdpPhase,
};
use torrentwork::tracker::{
    classify_status, scheme_of, AnnounceEvent, AnnounceRound, AnnounceStats, RoundAction,
    RoundPhase, Scheme, StatusClass, TrackerHttpRquest,
};

fn stats(event: AnnounceEvent) -> AnnounceStats {
    AnnounceStats { uploaded: 1, downloaded: 20, left: 300, event }
}

fn response(peers: Option<Vec<Peer>>) -> HttpTrackerResponse {
    HttpTrackerResponse {
        complete: None,
        downloaded: None,
        incomplete: None,
        interval: None,
        min_interval: None,
        peers,
    }
}

fn descriptor(announce_list: Option<Vec<Vec<String>>>) -> Torrent {
    Torrent {
        info: Info {
            name: String::from("sample.bin"),
            pieces: vec![0u8; 20],
            piece_length: 16384,
            md5sum: None,
            length: Some(100),
            files: None,
            private: None,
            path: None,
            root_hash: None,
            tracker_response_list: None,
        },
        announce: None,
        nodes: None,
        encoding: None,
        httpseeds: None,
        announce_list,
        creation_date: None,
        comment: None,
        created_by: None,
    }
}

#[test]
fn decimal_text_of_numbers() {
    assert_eq!(u64_to_decimal(0), "0");
    assert_eq!(u64_to_decimal(7), "7");
    assert_eq!(u64_to_decimal(6881), "6881");
    assert_eq!(u64_to_decimal(u64::MAX), "18446744073709551615");
    assert_eq!(i64_to_decimal(-1), "-1");
    assert_eq!(i64_to_decimal(0), "0");
    assert_eq!(i64_to_decimal(i64::MIN), "-9223372036854775808");
    assert_eq!(i64_to_decimal(i64::MAX), "9223372036854775807");
    let mut s = String::from("x=");
    push_decimal(&mut s, 1050);
    assert_eq!(s, "x=1050");
}

#[test]
fn announce_request_percent_encodes_the_raw_bytes() {
    let hash: Vec<u8> = vec![
        0x12, 0x34, 0x56, 0x78, 0x9a, 0xbc, 0xde, 0xf1, 0x23, 0x45, 0x67, 0x89, 0xab, 0xcd, 0xef,
        0x12, 0x34, 0x56, 0x78, 0x9a,
    ];
    let req = HttpTrackerRquest::announce(&hash, b"-TW0001-abc~def_gh.i", 6881, &stats(AnnounceEvent::Started), true);
    assert_eq!(req.info_hash, "%124Vx%9A%BC%DE%F1%23Eg%89%AB%CD%EF%124Vx%9A");
    assert_eq!(req.peer_id, "-TW0001-abc~def_gh.i");
    assert_eq!(req.port, "6881");
    assert_eq!(req.uploaded, "1");
    assert_eq!(req.downloaded, "20");
    assert_eq!(req.left, "300");
    assert_eq!(req.compact, "1");
    assert_eq!(req.event, "started");
    assert_eq!(
        req.to_query(),
        "info_hash=%124Vx%9A%BC%DE%F1%23Eg%89%AB%CD%EF%124Vx%9A&peer_id=-TW0001-abc~def_gh.i&port=6881&uploaded=1&downloaded=20&left=300&compact=1&event=started"
    );
}

#[test]
fn announce_events_have_their_texts() {
    assert_eq!(AnnounceEvent::Started.as_str(), "started");
    assert_eq!(AnnounceEvent::Completed.as_str(), "completed");
    assert_eq!(AnnounceEvent::Stopped.as_str(), "stopped");
    assert_eq!(AnnounceEvent::Periodic.as_str(), "");
    let req = HttpTrackerRquest::announce(&[0u8; 20], &[b'a'; 20], 1, &stats(AnnounceEvent::Periodic), false);
    assert_eq!(req.event, "");
    assert_eq!(req.compact, "0");
    assert_eq!(req.info_hash, "%00".repeat(20));
}

#[test]
fn request_params_keep_their_order() {
    let req = HttpTrackerRquest::new(
        String::from("h"),
        String::from("p"),
        String::from("1"),
        String::from("2"),
        String::from("3"),
        String::from("4"),
        String::from("0"),
        String::from("started"),
    );
    assert_eq!(
        req.to_request_params(),
        vec![
            ("info_hash", String::from("h")),
            ("peer_id", String::from("p")),
            ("port", String::from("1")),
            ("uploaded", String::from("2")),
            ("downloaded", String::from("3")),
            ("left", String::from("4")),
            ("compact", String::from("0")),
            ("event", String::from("started")),
        ]
    );
    assert_eq!(
        req.to_query(),
        "info_hash=h&peer_id=p&port=1&uploaded=2&downloaded=3&left=4&compact=0&event=started"
    );
}

#[test]
fn first_announce_params_are_fixed() {
    assert_eq!(
        TrackerHttpRquest::build_get_request_params("abc", 456456),
        vec![
            ("info_hash", String::from("abc")),
            ("peer_id", String::from("00112233445566778899")),
            ("port", String::from("6881")),
            ("uploaded", String::from("0")),
            ("downloaded", String::from("0")),
            ("left", String::from("456456")),
            ("event", String::from("started")),
        ]
    );
}

#[test]
fn announce_url_carries_the_query() {
    let req = HttpTrackerRquest::announce(&[0xffu8; 20], b"-TW0001-000000000000", 6881, &stats(AnnounceEvent::Started), true);
    let url = announce_url("http://tracker.example/announce", &req).unwrap();
    assert_eq!(
        url,
        format!("http://tracker.example/announce?{}", req.to_query())
    );
    assert!(url.contains("info_hash=%FF%FF%FF"));
}

#[test]
fn announce_url_keeps_the_trackers_own_query() {
    let req = HttpTrackerRquest::announce(&[1u8; 20], b"-TW0001-000000000000", 6881, &stats(AnnounceEvent::Started), true);
    let url = announce_url("http://tracker.example/announce?passkey=s3cr3t", &req).unwrap();
    assert_eq!(
        url,
        format!("http://tracker.example/announce?passkey=s3cr3t&{}", req.to_query())
    );
}

#[test]
fn announce_url_of_no_url_is_none() {
    let req = HttpTrackerRquest::announce(&[1u8; 20], &[b'a'; 20], 6881, &stats(AnnounceEvent::Started), true);
    assert_eq!(announce_url("not a url", &req), None);
    assert_eq!(announce_url("", &req), None);
}

#[test]
fn queries_are_merged_with_an_ampersand() {
    assert_eq!(merge_query(Some("a=1"), "b=2"), "a=1&b=2");
    assert_eq!(merge_query(Some(""), "b=2"), "b=2");
    assert_eq!(merge_query(None, "b=2"), "b=2");
}

#[test]
fn schemes_pick_the_protocol() {
    assert_eq!(scheme_of("http://tracker.example/announce"), Scheme::Http);
    assert_eq!(scheme_of("https://tracker.example/announce"), Scheme::Http);
    assert_eq!(scheme_of("udp://tracker.example:6969"), Scheme::Udp);
    assert_eq!(scheme_of("wss://tracker.example"), Scheme::Unknown);
    assert_eq!(scheme_of("httpx://tracker.example"), Scheme::Unknown);
    assert_eq!(scheme_of("tracker.example"), Scheme::Unknown);
    assert_eq!(scheme_of(""), Scheme::Unknown);
    assert_eq!(scheme_of("udp"), Scheme::Udp);
    assert_eq!(scheme_of("://x"), Scheme::Unknown);
}

#[test]
fn statuses_are_classified() {
    assert_eq!(classify_status(200), StatusClass::Answered);
    assert_eq!(classify_status(400), StatusClass::BadRequest);
    assert_eq!(classify_status(404), StatusClass::Other);
    assert_eq!(classify_status(500), StatusClass::Other);
}

#[test]
fn only_a_response_with_peers_is_well_formed() {
    assert!(interpret_response(200, Some(response(Some(Vec::new())))).is_ok());
    assert!(matches!(
        interpret_response(200, Some(response(None))),
        Err(EngineError::TrackerUnreachable)
    ));
    assert!(matches!(interpret_response(200, None), Err(EngineError::TrackerUnreachable)));
    assert!(matches!(
        interpret_response(404, Some(response(Some(Vec::new())))),
        Err(EngineError::TrackerUnreachable)
    ));
}

#[test]
fn next_announce_follows_the_trackers_intervals() {
    let mut r = response(None);
    assert_eq!(r.next_announce_in(), DEFAULT_INTERVAL);
    assert_eq!(DEFAULT_INTERVAL, 1800);
    r.interval = Some(900);
    assert_eq!(r.next_announce_in(), 900);
    r.min_interval = Some(60);
    assert_eq!(r.next_announce_in(), 60);
    r.interval = None;
    assert_eq!(r.next_announce_in(), 60);
    r.interval = Some(30);
    r.min_interval = Some(120);
    assert_eq!(r.next_announce_in(), 120);
}

#[test]
fn compact_peers_are_six_bytes_each() {
    let peers = parse_compact_peers(&[10, 0, 0, 7, 0x1a, 0xe1, 192, 168, 1, 255, 0, 80]).unwrap();
    assert_eq!(peers.len(), 2);
    assert_eq!(peers[0].ip.as_deref(), Some("10.0.0.7"));
    assert_eq!(peers[0].port, Some(6881));
    assert!(peers[0].peer_id.is_none());
    assert_eq!(peers[1].ip.as_deref(), Some("192.168.1.255"));
    assert_eq!(peers[1].port, Some(80));
    assert!(parse_compact_peers(&[1, 2, 3, 4, 5]).is_none());
    assert_eq!(parse_compact_peers(&[]).map(|p| p.len()), Some(0));
}

#[test]
fn second_tier_answers_when_the_first_is_malformed() {
    let mut round = AnnounceRound::new(vec![1, 2]);
    assert_eq!(round.phase(), RoundPhase::Idle);
    assert_eq!(round.start(), RoundAction::Dispatch { tier: 0 });
    let malformed = interpret_response(200, None).is_ok();
    assert_eq!(round.on_result(0, malformed), RoundAction::Dispatch { tier: 1 });
    assert_eq!(round.tier(), 1);
    let good = interpret_response(200, Some(response(Some(Vec::new())))).is_ok();
    assert_eq!(round.on_result(1, good), RoundAction::Finish { tier: 1, url: 1 });
    assert_eq!(round.outcome(), Some(Ok((1, 1))));
    assert_eq!(round.on_result(0, false), RoundAction::Ignore);
    assert_eq!(round.phase(), RoundPhase::Succeeded { tier: 1, url: 1 });
}

#[test]
fn all_tiers_failing_is_tracker_unreachable() {
    let mut round = AnnounceRound::new(vec![2, 0, 1]);
    assert_eq!(round.start(), RoundAction::Dispatch { tier: 0 });
    assert_eq!(round.on_result(1, false), RoundAction::Wait);
    assert_eq!(round.outcome(), None);
    assert_eq!(round.on_result(1, false), RoundAction::Ignore);
    assert_eq!(round.on_result(0, false), RoundAction::Dispatch { tier: 2 });
    assert_eq!(round.on_result(0, false), RoundAction::GiveUp);
    assert_eq!(round.phase(), RoundPhase::Failed);
    assert_eq!(round.outcome(), Some(Err(EngineError::TrackerUnreachable)));
    assert_eq!(round.start(), RoundAction::Ignore);
}

#[test]
fn any_success_in_a_tier_ends_the_round() {
    let mut round = AnnounceRound::new(vec![3, 1]);
    round.start();
    assert_eq!(round.on_result(2, false), RoundAction::Wait);
    assert_eq!(round.on_result(0, true), RoundAction::Finish { tier: 0, url: 0 });
    assert_eq!(round.on_result(1, true), RoundAction::Ignore);
    assert_eq!(round.outcome(), Some(Ok((0, 0))));
}

#[test]
fn a_round_without_urls_fails_at_once() {
    let mut none = AnnounceRound::new(Vec::new());
    assert_eq!(none.start(), RoundAction::GiveUp);
    let mut empty = AnnounceRound::new(vec![0, 0]);
    assert_eq!(empty.start(), RoundAction::GiveUp);
    assert_eq!(empty.outcome(), Some(Err(EngineError::TrackerUnreachable)));
    let mut unstarted = AnnounceRound::new(vec![1]);
    assert_eq!(unstarted.on_result(0, true), RoundAction::Ignore);
    assert_eq!(unstarted.on_result(5, true), RoundAction::Ignore);
}

#[test]
fn rounds_follow_the_tiers_of_a_descriptor() {
    let tiers = vec![
        vec![String::from("http://a/announce"), String::from("udp://b:80")],
        vec![String::from("http://c/announce")],
    ];
    let mut round = AnnounceRound::for_tiers(&tiers);
    assert_eq!(round.start(), RoundAction::Dispatch { tier: 0 });
    assert_eq!(round.on_result(0, false), RoundAction::Wait);
    assert_eq!(round.on_result(1, false), RoundAction::Dispatch { tier: 1 });
    let tracker = torrentwork::tracker::Tracker { torrent: descriptor(Some(tiers)) };
    let mut again = tracker.request();
    assert_eq!(again.start(), RoundAction::Dispatch { tier: 0 });
    let bare = torrentwork::tracker::Tracker { torrent: descriptor(None) };
    assert_eq!(bare.request().start(), RoundAction::GiveUp);
}

#[test]
fn tracker_plans_a_request_for_each_http_url() {
    let t = descriptor(Some(vec![
        vec![String::from("http://a/announce"), String::from("udp://b:80")],
        vec![String::from("https://c/announce"), String::from("ws://d")],
    ]));
    let tf = TorrentFile::new(t, b"abc").unwrap();
    let tracker = Tracker::new(&tf);
    assert_eq!(tracker.announces, tf.announces);
    assert_eq!(tracker.info_hash, tf.info_hash);
    let file = File {
        path: vec![String::from("sample.bin")],
        length: 100,
        md5sum: None,
        tracker_response_list: None,
    };
    let requests = tracker.get_peers(&file, 7, 3);
    assert_eq!(requests.len(), 4);
    assert!(requests[0].is_some() && requests[1].is_none());
    assert!(requests[2].is_some() && requests[3].is_none());
    let req = requests[0].as_ref().unwrap();
    assert_eq!(req.info_hash, "%A9%99%3E6G%06%81j%BA%3E%25qxP%C2l%9C%D0%D8%9D");
    assert_eq!(req.peer_id, "00112233445566778899");
    assert_eq!(req.port, "6881");
    assert_eq!(req.uploaded, "3");
    assert_eq!(req.downloaded, "7");
    assert_eq!(req.left, "100");
    assert_eq!(req.compact, "0");
    assert_eq!(req.event, "started");
    assert_eq!(peer_id(), b"00112233445566778899".to_vec());
}

#[test]
fn peers_of_responses_are_flattened_in_order() {
    let tf = TorrentFile::new(descriptor(None), b"abc").unwrap();
    let file = File { path: Vec::new(), length: 100, md5sum: None, tracker_response_list: None };
    let task = DownloadTask::new(tf.info_hash.clone(), file, Tracker::new(&tf), 1);
    let a = Peer { peer_id: Some(String::from("A")), ip: Some(String::from("1.1.1.1")), port: Some(1) };
    let b = Peer { peer_id: None, ip: Some(String::from("2.2.2.2")), port: Some(2) };
    let c = Peer { peer_id: None, ip: None, port: None };
    let responses =
        vec![response(Some(vec![a, b])), response(None), response(Some(vec![c]))];
    let peers = task.peers(&responses, 42);
    assert_eq!(peers.len(), 3);
    assert_eq!(peers[0].peer_id.as_deref(), Some("A"));
    assert_eq!(peers[0].to_address(), "1.1.1.1:1");
    assert_eq!(peers[1].to_address(), "2.2.2.2:2");
    assert!(peers[2].ip.is_none() && peers[2].port.is_none());
    assert_eq!(peers[2].info_hash, tf.info_hash);
    assert!(peers.iter().all(|p| p.last_seen == 42));
}

fn udp_tracker() -> UDPTracker {
    UDPTracker::new(UdpAnnounce {
        info_hash: (1u8..=20).collect(),
        peer_id: b"-TW0001-000000000000".to_vec(),
        stats: stats(AnnounceEvent::Started),
        key: 0x0a0b_0c0d,
        port: 6881,
    })
}

#[test]
fn udp_timeouts_double_up_to_an_hour() {
    let mut tracker = udp_tracker();
    assert_eq!(tracker.phase(), UdpPhase::Idle);
    let mut seen = Vec::new();
    let mut action = tracker.start(1);
    let mut id = 1;
    loop {
        match action {
            UdpAction::Send { packet, timeout } => {
                assert_eq!(packet, UDPTracker::connect_request(id));
                assert_eq!(tracker.timeout(), Some(timeout));
                seen.push(timeout);
            }
            UdpAction::Fail => break,
            other => panic!("unexpected action: {:?}", other),
        }
        id += 1;
        action = tracker.on_timeout(id);
    }
    assert_eq!(seen, vec![15, 30, 60, 120, 240, 480, 960, 1920]);
    assert_eq!(tracker.phase(), UdpPhase::Failed);
    assert_eq!(tracker.timeout(), None);
    assert!(matches!(tracker.on_timeout(99), UdpAction::Ignore));
    assert!(matches!(tracker.start(99), UdpAction::Ignore));
}

#[test]
fn udp_exchange_connects_then_announces() {
    let mut tracker = udp_tracker();
    assert!(matches!(tracker.on_datagram(&[0u8; 16], 5), UdpAction::Ignore));
    assert!(matches!(tracker.start(0x0102_0304), UdpAction::Send { timeout: 15, .. }));
    assert_eq!(tracker.phase(), UdpPhase::Connecting);
    let stray = vec![0, 0, 0, 0, 9, 9, 9, 9, 0, 0, 0, 0, 0, 0, 1, 5];
    assert!(matches!(tracker.on_datagram(&stray, 5), UdpAction::Ignore));
    assert_eq!(tracker.phase(), UdpPhase::Connecting);
    let connected = vec![0, 0, 0, 0, 1, 2, 3, 4, 0, 0, 0, 0, 0, 0, 1, 5];
    match tracker.on_datagram(&connected, 7) {
        UdpAction::Send { packet, timeout } => {
            assert_eq!(timeout, 15);
            let hash: Vec<u8> = (1u8..=20).collect();
            assert_eq!(
                packet,
                UDPTracker::announce_request(
                    261,
                    7,
                    &hash,
                    b"-TW0001-000000000000",
                    &stats(AnnounceEvent::Started),
                    0x0a0b_0c0d,
                    6881,
                )
            );
        }
        other => panic!("unexpected action: {:?}", other),
    }
    assert_eq!(tracker.phase(), UdpPhase::Announcing { connection_id: 261 });
    assert!(matches!(tracker.on_datagram(&connected, 8), UdpAction::Ignore));
    let mut answer = vec![0, 0, 0, 1, 0, 0, 0, 7, 0, 0, 7, 8, 0, 0, 0, 3, 0, 0, 0, 9];
    answer.extend_from_slice(&[10, 0, 0, 7, 0x1a, 0xe1]);
    match tracker.on_datagram(&answer, 9) {
        UdpAction::Finish(response) => {
            assert_eq!(response.interval, Some(1800));
            assert_eq!(response.peers.map(|p| p.len()), Some(1));
        }
        other => panic!("unexpected action: {:?}", other),
    }
    assert_eq!(tracker.phase(), UdpPhase::Done);
    assert!(matches!(tracker.on_timeout(10), UdpAction::Ignore));
    assert!(matches!(tracker.on_datagram(&answer, 11), UdpAction::Ignore));
}

#[test]
fn udp_exchange_starts_over_after_a_timeout() {
    let mut tracker = udp_tracker();
    tracker.start(1);
    let connected = vec![0, 0, 0, 0, 0, 0, 0, 1, 0, 0, 0, 0, 0, 0, 1, 5];
    assert!(matches!(tracker.on_datagram(&connected, 2), UdpAction::Send { .. }));
    match tracker.on_timeout(3) {
        UdpAction::Send { packet, timeout } => {
            assert_eq!(packet, UDPTracker::connect_request(3));
            assert_eq!(timeout, 30);
        }
        other => panic!("unexpected action: {:?}", other),
    }
    assert_eq!(tracker.phase(), UdpPhase::Connecting);
}

#[test]
fn udp_connect_request_is_sixteen_bytes() {
    assert_eq!(
        UDPTracker::connect_request(0x0102_0304),
        vec![0, 0, 4, 0x17, 0x27, 0x10, 0x19, 0x80, 0, 0, 0, 0, 1, 2, 3, 4]
    );
}

#[test]
fn udp_connect_response_gives_the_connection_id() {
    let bytes = vec![0, 0, 0, 0, 1, 2, 3, 4, 0, 0, 0, 0, 0, 0, 1, 5];
    assert_eq!(UDPTracker::parse_connect_response(&bytes, 0x0102_0304), Some(261));
    assert_eq!(UDPTracker::parse_connect_response(&bytes, 9), None);
    assert_eq!(UDPTracker::parse_connect_response(&bytes[..15], 0x0102_0304), None);
    let mut error = bytes.clone();
    error[3] = 3;
    assert_eq!(UDPTracker::parse_connect_response(&error, 0x0102_0304), None);
}

#[test]
fn udp_announce_request_is_ninety_eight_bytes() {
    let hash: Vec<u8> = (1u8..=20).collect();
    let bytes = UDPTracker::announce_request(
        261,
        7,
        &hash,
        b"-TW0001-000000000000",
        &stats(AnnounceEvent::Started),
        0x0a0b_0c0d,
        6881,
    );
    assert_eq!(bytes.len(), 98);
    assert_eq!(&bytes[0..8], &[0, 0, 0, 0, 0, 0, 1, 5]);
    assert_eq!(&bytes[8..12], &[0, 0, 0, 1]);
    assert_eq!(&bytes[12..16], &[0, 0, 0, 7]);
    assert_eq!(&bytes[16..36], hash.as_slice());
    assert_eq!(&bytes[36..56], b"-TW0001-000000000000");
    assert_eq!(&bytes[56..64], &[0, 0, 0, 0, 0, 0, 0, 20]);
    assert_eq!(&bytes[64..72], &[0, 0, 0, 0, 0, 0, 1, 44]);
    assert_eq!(&bytes[72..80], &[0, 0, 0, 0, 0, 0, 0, 1]);
    assert_eq!(&bytes[80..84], &[0, 0, 0, 2]);
    assert_eq!(&bytes[84..88], &[0, 0, 0, 0]);
    assert_eq!(&bytes[88..92], &[0x0a, 0x0b, 0x0c, 0x0d]);
    assert_eq!(&bytes[92..96], &[0xff, 0xff, 0xff, 0xff]);
    assert_eq!(&bytes[96..98], &[0x1a, 0xe1]);
}

#[test]
fn udp_announce_response_lists_the_peers() {
    let mut bytes = vec![0, 0, 0, 1, 0, 0, 0, 7, 0, 0, 7, 8, 0, 0, 0, 3, 0, 0, 0, 9];
    bytes.extend_from_slice(&[10, 0, 0, 7, 0x1a, 0xe1]);
    let r = UDPTracker::parse_announce_response(&bytes, 7).unwrap();
    assert_eq!(r.interval, Some(1800));
    assert_eq!(r.incomplete, Some(3));
    assert_eq!(r.complete, Some(9));
    let peers = r.peers.unwrap();
    assert_eq!(peers.len(), 1);
    assert_eq!(peers[0].ip.as_deref(), Some("10.0.0.7"));
    assert_eq!(peers[0].port, Some(6881));
    assert!(UDPTracker::parse_announce_response(&bytes, 8).is_none());
    assert!(UDPTracker::parse_announce_response(&bytes[..25], 7).is_none());
    assert!(UDPTracker::parse_announce_response(&bytes[..19], 7).is_none());
}

#[test]
fn eight_byte_numbers_are_written_big_end_first() {
    let mut out = Vec::new();
    push_be64(&mut out, 0x0102_0304_0506_0708);
    assert_eq!(out, vec![1, 2, 3, 4, 5, 6, 7, 8]);
    assert_eq!(read_be64(&out, 0), 0x0102_0304_0506_0708);
}
