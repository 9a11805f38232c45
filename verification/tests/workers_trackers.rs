use shardmeld::address::{Address, NetworkId};
use shardmeld::metadata::{PeerAddr, PeerIp, TorrentV1};
use shardmeld::seed::{seed_step, SeedAction, SeedRefusal};
use shardmeld::peer::{
    build_piece_jobs, cancel_payloads, peer_has_piece, request_payload, worker_step, BlockRequest, Claim,
    SchedulerState, WorkerAction, WorkerEvent,
};
use shardmeld::tracker::{tier_outcome, tracker_step, TrackerWalk, WalkAction, WalkEvent, WalkStage};
use shardmeld::wallet::Wallet;

fn block(piece: u32, begin: u32) -> BlockRequest {
    BlockRequest { piece_index: piece, begin, length: 16_384, absolute_offset: u64::from(piece) * 32_768 + u64::from(begin) }
}

fn claimed(state: &mut SchedulerState, availability: &[bool]) -> shardmeld::peer::PieceJob {
    match state.claim(availability) {
        Claim::Job(job) => job,
        other => panic!("expected a job, got {other:?}"),
    }
}

#[test]
fn only_the_first_verified_result_is_committed() {
    let requests = vec![block(0, 0), block(0, 16_384)];
    let mut state = SchedulerState::new(build_piece_jobs(&requests), 1);
    let availability = vec![true];
    let first = claimed(&mut state, &availability);
    let second = claimed(&mut state, &availability);
    assert!(second.endgame_duplicate);
    assert!(matches!(worker_step(&mut state, first, WorkerEvent::Verified), Ok(WorkerAction::Commit)));
    let open = vec![block(0, 16_384)];
    match worker_step(&mut state, second, WorkerEvent::WinnerSeen(open.clone())) {
        Ok(WorkerAction::Cancel(payloads)) => {
            assert_eq!(payloads.len(), 1);
            assert_eq!(payloads[0], request_payload(open[0]));
        }
        _ => panic!("a losing worker cancels its open requests"),
    }
    assert!(state.is_complete());
    assert_eq!(cancel_payloads(&vec![block(0, 0), block(0, 16_384)]).len(), 2);
}

#[test]
fn a_failed_piece_is_requeued_and_aborts_the_worker() {
    let requests = vec![block(0, 0)];
    let mut state = SchedulerState::new(build_piece_jobs(&requests), 1);
    let job = claimed(&mut state, &[true]);
    assert!(matches!(worker_step(&mut state, job, WorkerEvent::Failed), Ok(WorkerAction::Abort)));
    assert_eq!(state.queue.len(), 1);
    assert_eq!(state.pieces_reassigned, 1);
    assert!(peer_has_piece(&[false, true], 1));
    assert!(!peer_has_piece(&[false, true], 0));
    assert!(!peer_has_piece(&[true], 3));
}

fn peer(last: u8, port: u16) -> PeerAddr {
    PeerAddr { ip: PeerIp::V4(u32::from_be_bytes([127, 0, 0, last])), port }
}

#[test]
fn tier_offers_untried_peers_once_and_stops_accepting_trackers() {
    let mut tried = vec![peer(1, 1)];
    let too_many: Vec<PeerAddr> = (0..101).map(|i| peer(9, i)).collect();
    let replies = vec![
        Some(vec![peer(1, 1), peer(2, 2), peer(2, 2)]),
        None,
        Some(too_many),
        Some(vec![peer(3, 3), peer(2, 2)]),
    ];
    let (candidates, accepted) = tier_outcome(&replies, &mut tried);
    assert_eq!(candidates, vec![peer(2, 2), peer(3, 3)]);
    assert_eq!(accepted, vec![true, false, true, true]);
    assert_eq!(tried, vec![peer(1, 1), peer(2, 2), peer(3, 3)]);
}

#[test]
fn key_addresses_parse_for_their_network_only() {
    let wallet = Wallet::from_secret_bytes(NetworkId::Devnet, [7; 32]);
    let address = wallet.address().unwrap();
    assert_eq!(Address::parse_for_network(address.as_str(), NetworkId::Devnet), Ok(address.clone()));
    assert!(Address::parse_for_network(address.as_str(), NetworkId::Mainnet).is_err());
    assert_eq!(address.as_str().len(), "smddev".len() + 39);
}

#[test]
fn seed_unchokes_interested_peers_and_serves_only_after_unchoke() {
    let torrent = TorrentV1 {
        name: "t".to_owned(),
        total_length: 40_000,
        piece_length: 32_768,
        piece_sha1: vec!["00".repeat(20), "11".repeat(20)],
        info_hash_sha1: "22".repeat(20),
        announce: None,
        announce_list: None,
    };
    let available = [true, false];
    let mut request = Vec::new();
    request.extend_from_slice(&0u32.to_be_bytes());
    request.extend_from_slice(&0u32.to_be_bytes());
    request.extend_from_slice(&16_384u32.to_be_bytes());
    let mut unchoked = false;
    assert_eq!(seed_step(&mut unchoked, 6, &request, &torrent, &available), Err(SeedRefusal::RequestBeforeUnchoke));
    assert_eq!(seed_step(&mut unchoked, 2, &[], &torrent, &available), Ok(SeedAction::Unchoke));
    assert!(unchoked);
    assert_eq!(seed_step(&mut unchoked, 2, &[], &torrent, &available), Ok(SeedAction::Ignore));
    assert_eq!(seed_step(&mut unchoked, 6, &request, &torrent, &available), Ok(SeedAction::Serve(0, 0, 16_384)));
    let mut other = request.clone();
    other[3] = 1;
    other[11] = 0;
    other[10] = 0x10;
    assert_eq!(seed_step(&mut unchoked, 6, &other, &torrent, &available), Err(SeedRefusal::Unavailable));
    assert_eq!(seed_step(&mut unchoked, 8, &request, &torrent, &available), Ok(SeedAction::CancelSeen));
    assert_eq!(seed_step(&mut unchoked, 3, &[1], &torrent, &available), Err(SeedRefusal::NonEmptyPayload));
    assert_eq!(seed_step(&mut unchoked, 3, &[], &torrent, &available), Ok(SeedAction::Stop));
}

#[test]
fn tracker_walk_goes_tier_by_tier_and_stops_accepting_trackers() {
    let sizes = vec![2_usize, 0, 1];
    let (mut walk, action) = TrackerWalk::new(&sizes);
    assert!(matches!(action, WalkAction::Announce { tier: 0, position: 0 }));
    let action = tracker_step(&mut walk, &sizes, WalkEvent::Replied(None));
    assert!(matches!(action, WalkAction::Announce { tier: 0, position: 1 }));
    let action = tracker_step(&mut walk, &sizes, WalkEvent::Replied(Some(vec![peer(1, 6881), peer(1, 6881), peer(2, 6881)])));
    match action {
        WalkAction::Fetch(peers) => assert_eq!(peers, vec![peer(1, 6881), peer(2, 6881)]),
        _ => panic!("expected the tier's peers"),
    }
    let action = tracker_step(&mut walk, &sizes, WalkEvent::Fetched(false));
    match action {
        WalkAction::Stop { tier, trackers } => {
            assert_eq!(tier, 0);
            assert_eq!(trackers, vec![false, true]);
        }
        _ => panic!("expected stopped announces"),
    }
    // The second tier has no tracker: its empty offer is tried at once.
    let action = tracker_step(&mut walk, &sizes, WalkEvent::Stopped);
    match action {
        WalkAction::Fetch(peers) => assert!(peers.is_empty()),
        _ => panic!("expected an empty offer"),
    }
    assert_eq!(walk.tier, 1);
    let action = tracker_step(&mut walk, &sizes, WalkEvent::Fetched(false));
    assert!(matches!(action, WalkAction::Stop { tier: 1, ref trackers } if trackers.is_empty()));
    let action = tracker_step(&mut walk, &sizes, WalkEvent::Stopped);
    assert!(matches!(action, WalkAction::Announce { tier: 2, position: 0 }));
    // Peers tried in an earlier tier are not offered again.
    let action = tracker_step(&mut walk, &sizes, WalkEvent::Replied(Some(vec![peer(2, 6881), peer(3, 6881)])));
    match action {
        WalkAction::Fetch(peers) => assert_eq!(peers, vec![peer(3, 6881)]),
        _ => panic!("expected the fresh peer"),
    }
    let action = tracker_step(&mut walk, &sizes, WalkEvent::Fetched(true));
    assert!(matches!(action, WalkAction::Stop { tier: 2, ref trackers } if trackers == &vec![true]));
    let action = tracker_step(&mut walk, &sizes, WalkEvent::Stopped);
    assert!(matches!(action, WalkAction::Finish(true)));
    assert_eq!(walk.stage, WalkStage::Finished);
}

#[test]
fn tracker_walk_ends_unsuccessfully_after_the_last_tier() {
    let sizes = vec![1_usize];
    let (mut walk, _) = TrackerWalk::new(&sizes);
    let action = tracker_step(&mut walk, &sizes, WalkEvent::Replied(None));
    assert!(matches!(action, WalkAction::Fetch(ref peers) if peers.is_empty()));
    let action = tracker_step(&mut walk, &sizes, WalkEvent::Fetched(false));
    assert!(matches!(action, WalkAction::Stop { tier: 0, ref trackers } if trackers == &vec![false]));
    let action = tracker_step(&mut walk, &sizes, WalkEvent::Stopped);
    assert!(matches!(action, WalkAction::Finish(false)));
}
