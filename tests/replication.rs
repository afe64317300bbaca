use libp2p::identity::{ed25519, PublicKey};
use nexus_core::oplog::{batch_ends, entries_since, sort_by_stamp};
use nexus_core::qr::{challenge_payload, encode_qr, scan_qr_code, AuthChallenge};
use nexus_core::{AuthResponse, AuthResult, DeviceAuthManager};
use nexus_core::{OpType, OplogEntry, Replica, SyncAction, SyncEvent, SyncManager, SyncMessage};

fn entry(id: u128, device: u128, ts: u64, op: OpType, key: &str, data: &str) -> OplogEntry {
    OplogEntry {
        id,
        device_id: device,
        timestamp: ts,
        table: "tasks".to_string(),
        op_type: op,
        key: key.to_string(),
        data: data.to_string(),
    }
}

fn publish_entries(actions: Vec<SyncAction>) -> Vec<OplogEntry> {
    for a in actions {
        if let SyncAction::Publish { message: SyncMessage::SyncData { entries, .. } } = a {
            return entries;
        }
    }
    panic!("no SyncData published");
}

#[test]
fn test_sync_manager_creation() {
    let manager = SyncManager::new(7, 9);
    assert_eq!(manager.user_id, 7);
    assert_eq!(manager.device_id, 9);
    assert!(manager.is_online);
    assert!(!manager.get_is_syncing());
    assert_eq!(manager.get_pending_changes_count(), 0);
    assert!(manager.get_connected_peers().is_empty());
}

#[test]
fn fresh_pair_receives_existing_row() {
    let user = 0xAAu128;
    let mut a = SyncManager::new(user, 1);
    let written = a.local_write("tasks", OpType::Insert, "T1", "a").expect("clock");
    assert_eq!(written.device_id, 1);

    // pairing: A issues a signed code, B scans it and answers with its key
    let a_key = ed25519::Keypair::generate();
    let mut auth = DeviceAuthManager::new();
    let nonce: Vec<u8> = (100u8..132).collect();
    let session = auth.issue_challenge(77, "a-peer".to_string(), "/ip4/10.0.0.1/tcp/4001".to_string(), nonce.clone(), user, 1_000);
    let challenge = AuthChallenge {
        challenge_id: session.challenge_id,
        authorizer_peer_id: PublicKey::from(a_key.public()).to_peer_id().to_base58(),
        dial_address: session.dial_address.clone(),
        nonce: session.nonce.clone(),
        expires_at: session.expires_at,
        user_id: user,
        authorizer_public_key: a_key.public().to_bytes().to_vec(),
    };
    let code = encode_qr(&challenge, &a_key.sign(challenge_payload(&challenge).as_bytes()));
    let scanned = scan_qr_code(&code).ok().expect("code verifies");
    let b_key = ed25519::Keypair::generate();
    let response = AuthResponse {
        challenge_id: scanned.challenge_id,
        device_id: 2,
        device_type: "desktop".to_string(),
        device_name: "Device-b".to_string(),
        new_device_public_key: b_key.public().to_bytes().to_vec(),
        nonce_signature: b_key.sign(&scanned.nonce),
    };
    assert!(matches!(auth.authorize(response, 1_100), AuthResult::Authorized { device_id: 2, .. }));

    let mut b = SyncManager::new(user, 2);
    let request = b.request_sync(0);
    let actions = a.process_event(SyncEvent::Message { message: request }, 1_000);
    let entries = publish_entries(actions);
    assert_eq!(entries.len(), 1);

    let actions = b.process_event(
        SyncEvent::Message { message: SyncMessage::SyncData { user_id: user, entries } },
        2_000,
    );
    assert!(matches!(actions[0], SyncAction::EmitStatus));
    assert_eq!(b.replica.get("tasks", "T1"), Some("a".to_string()));
    assert_eq!(b.replica.log_len(), 1);
    assert_eq!(b.get_last_sync_time(), Some(2_000));
}

#[test]
fn concurrent_edit_later_timestamp_wins() {
    let ea = entry(1, 10, 100, OpType::Insert, "T1", "a");
    let eb = entry(2, 20, 200, OpType::Insert, "T1", "b");
    let mut a = Replica::new(10);
    let mut b = Replica::new(20);
    a.merge(&vec![ea.clone()]);
    b.merge(&vec![eb.clone()]);
    a.merge(&vec![eb]);
    b.merge(&vec![ea]);
    assert_eq!(a.get("tasks", "T1"), Some("b".to_string()));
    assert_eq!(b.get("tasks", "T1"), Some("b".to_string()));
}

#[test]
fn concurrent_edit_device_id_breaks_tie() {
    let ex = entry(1, 0x11, 150, OpType::Update, "T1", "x");
    let ey = entry(2, 0x22, 150, OpType::Update, "T1", "y");
    let mut a = Replica::new(0x11);
    let mut b = Replica::new(0x22);
    a.merge(&vec![ex.clone()]);
    b.merge(&vec![ey.clone()]);
    a.merge(&vec![ey]);
    b.merge(&vec![ex]);
    assert_eq!(a.get("tasks", "T1"), Some("y".to_string()));
    assert_eq!(b.get("tasks", "T1"), Some("y".to_string()));
}

#[test]
fn delete_then_recreate_keeps_later_insert() {
    let insert = entry(1, 1, 100, OpType::Insert, "T1", "old");
    let delete = entry(2, 1, 300, OpType::Delete, "T1", "");
    let recreate = entry(3, 2, 400, OpType::Insert, "T1", "z");
    let mut a = Replica::new(1);
    a.merge(&vec![insert.clone(), delete.clone()]);
    assert_eq!(a.get("tasks", "T1"), None);
    a.merge(&vec![recreate.clone()]);
    assert_eq!(a.get("tasks", "T1"), Some("z".to_string()));
    let mut b = Replica::new(2);
    b.merge(&vec![recreate, delete, insert]);
    assert_eq!(b.get("tasks", "T1"), Some("z".to_string()));
}

#[test]
fn tombstone_beats_earlier_writes_in_batch() {
    let mut r = Replica::new(5);
    r.merge(&vec![
        entry(1, 1, 10, OpType::Insert, "K", "v1"),
        entry(3, 1, 30, OpType::Delete, "K", ""),
        entry(2, 2, 20, OpType::Update, "K", "v2"),
    ]);
    assert_eq!(r.get("tasks", "K"), None);
}

#[test]
fn merge_twice_changes_nothing() {
    let batch = vec![
        entry(1, 1, 10, OpType::Insert, "A", "1"),
        entry(2, 2, 20, OpType::Insert, "B", "2"),
        entry(3, 1, 30, OpType::Update, "A", "3"),
    ];
    let mut r = Replica::new(9);
    r.merge(&batch);
    assert_eq!(r.log_len(), 3);
    r.merge(&batch);
    assert_eq!(r.log_len(), 3);
    assert_eq!(r.get("tasks", "A"), Some("3".to_string()));
    assert_eq!(r.get("tasks", "B"), Some("2".to_string()));
    assert!(r.contains(2));
    assert!(!r.contains(4));
}

#[test]
fn replicas_converge_in_any_order() {
    let es = vec![
        entry(1, 1, 10, OpType::Insert, "A", "a1"),
        entry(2, 2, 15, OpType::Insert, "A", "a2"),
        entry(3, 1, 20, OpType::Delete, "B", ""),
        entry(4, 2, 5, OpType::Insert, "B", "b"),
        entry(5, 3, 12, OpType::Insert, "C", "c"),
    ];
    let mut x = Replica::new(100);
    let mut y = Replica::new(200);
    x.merge(&es);
    for e in es.iter().rev() {
        y.merge(&vec![e.clone()]);
    }
    for key in ["A", "B", "C"] {
        assert_eq!(x.get("tasks", key), y.get("tasks", key));
    }
    assert_eq!(x.get("tasks", "A"), Some("a2".to_string()));
    assert_eq!(x.get("tasks", "B"), None);
}

#[test]
fn offline_queue_flushes_three_entries_once() {
    let user = 3u128;
    let mut b = SyncManager::new(user, 2);
    assert!(b.set_online_status(false).is_none());
    for (k, v) in [("T1", "1"), ("T2", "2"), ("T3", "3")] {
        let e = b.local_write("tasks", OpType::Insert, k, v).expect("clock");
        assert!(b.route_local_change(e).is_none());
    }
    assert_eq!(b.get_pending_changes_count(), 3);
    let actions = b.process_event(SyncEvent::ConnectionEstablished { peer_id: "peerA".to_string() }, 0);
    assert_eq!(actions.len(), 1);
    assert_eq!(b.get_pending_changes_count(), 3);
    let flushed = match b.set_online_status(true) {
        Some(SyncMessage::SyncData { user_id, entries }) => {
            assert_eq!(user_id, user);
            entries
        }
        _ => panic!("expected a flush"),
    };
    assert_eq!(flushed.len(), 3);
    assert_eq!(b.get_pending_changes_count(), 0);

    let mut a = SyncManager::new(user, 1);
    a.process_event(SyncEvent::Message { message: SyncMessage::SyncData { user_id: user, entries: flushed.clone() } }, 5);
    a.process_event(SyncEvent::Message { message: SyncMessage::SyncData { user_id: user, entries: flushed } }, 6);
    assert_eq!(a.replica.log_len(), 3);
    assert_eq!(a.replica.get("tasks", "T2"), Some("2".to_string()));
}

#[test]
fn coming_online_without_peers_keeps_queue() {
    let mut m = SyncManager::new(1, 1);
    m.set_online_status(false);
    m.add_pending_change(entry(1, 1, 1, OpType::Insert, "K", "v"));
    m.add_pending_change(entry(2, 1, 2, OpType::Insert, "L", "w"));
    assert!(m.set_online_status(true).is_none());
    assert_eq!(m.get_pending_changes_count(), 2);
    let actions = m.process_event(SyncEvent::ConnectionEstablished { peer_id: "p".to_string() }, 0);
    assert_eq!(publish_entries(actions).len(), 2);
    assert_eq!(m.get_pending_changes_count(), 0);
}

#[test]
fn connection_roster_tracks_peers() {
    let mut m = SyncManager::new(1, 1);
    m.process_event(SyncEvent::ConnectionEstablished { peer_id: "peer-a".to_string() }, 0);
    m.process_event(SyncEvent::ConnectionEstablished { peer_id: "peer-b".to_string() }, 0);
    assert!(m.get_is_syncing());
    m.process_event(SyncEvent::ConnectionClosed { peer_id: "peer-a".to_string() }, 0);
    assert_eq!(m.get_connected_peers(), vec!["peer-b".to_string()]);
    assert!(m.get_is_syncing());
    m.process_event(SyncEvent::ConnectionClosed { peer_id: "peer-b".to_string() }, 0);
    assert!(!m.get_is_syncing());
    let actions = m.process_event(SyncEvent::Discovered { peers: vec!["x".to_string(), "y".to_string()] }, 0);
    assert_eq!(actions.len(), 2);
    assert!(matches!(&actions[1], SyncAction::AddExplicitPeer { peer_id } if peer_id == "y"));
}

#[test]
fn announce_records_peer_once() {
    let mut m = SyncManager::new(1, 1);
    let msg = SyncMessage::Announce { user_id: 1, device_id: 42, peer_id: "p".to_string() };
    m.process_event(SyncEvent::Message { message: msg }, 100);
    let msg = SyncMessage::Announce { user_id: 1, device_id: 42, peer_id: "p".to_string() };
    m.process_event(SyncEvent::Message { message: msg }, 200);
    assert_eq!(m.peers.len(), 1);
    assert_eq!(m.peers[0].device_id, 42);
    assert_eq!(m.peers[0].last_sync_time, Some(200));
}

#[test]
fn entries_since_filters_and_orders() {
    let log = vec![
        entry(1, 2, 30, OpType::Insert, "A", "x"),
        entry(2, 1, 10, OpType::Insert, "B", "y"),
        entry(3, 1, 30, OpType::Insert, "C", "z"),
        entry(4, 1, 20, OpType::Insert, "D", "w"),
    ];
    let since = entries_since(&log, 10);
    let ids: Vec<u128> = since.iter().map(|e| e.id).collect();
    assert_eq!(ids, vec![4, 3, 1]);
    let sorted = sort_by_stamp(&log);
    let ids: Vec<u128> = sorted.iter().map(|e| e.id).collect();
    assert_eq!(ids, vec![2, 4, 3, 1]);
}

#[test]
fn local_writes_get_increasing_stamps() {
    let mut r = Replica::new(77);
    let e1 = r.local_apply("tasks", OpType::Insert, "K", "1").unwrap();
    let e2 = r.local_apply("tasks", OpType::Update, "K", "2").unwrap();
    assert!(e2.timestamp > e1.timestamp);
    assert_ne!(e1.id, e2.id);
    assert_eq!(r.get("tasks", "K"), Some("2".to_string()));
    assert_eq!(r.entries_since(e1.timestamp).len(), 1);
}

#[test]
fn batches_are_cut_greedily() {
    assert_eq!(batch_ends(&vec![], 10), Vec::<usize>::new());
    assert_eq!(batch_ends(&vec![4, 4, 4, 4], 10), vec![2, 4]);
    assert_eq!(batch_ends(&vec![20, 1, 1], 10), vec![1, 3]);
    assert_eq!(batch_ends(&vec![5, 5, 5], 10), vec![2, 3]);
    assert_eq!(batch_ends(&vec![usize::MAX, usize::MAX], usize::MAX), vec![1, 2]);
}

#[test]
fn failed_flush_is_requeued_in_order() {
    let mut m = SyncManager::new(1, 1);
    m.process_event(SyncEvent::ConnectionEstablished { peer_id: "peer-a".to_string() }, 0);
    m.set_online_status(false);
    m.add_pending_change(entry(1, 1, 1, OpType::Insert, "K", "v"));
    m.add_pending_change(entry(2, 1, 2, OpType::Insert, "L", "w"));
    let flushed = match m.set_online_status(true) {
        Some(SyncMessage::SyncData { entries, .. }) => entries,
        _ => panic!("expected a flush"),
    };
    assert_eq!(m.get_pending_changes_count(), 0);
    m.add_pending_change(entry(3, 1, 3, OpType::Insert, "M", "x"));
    m.requeue_front(flushed);
    let ids: Vec<u128> = m.pending_changes.iter().map(|e| e.id).collect();
    assert_eq!(ids, vec![1, 2, 3]);
    match m.sync_pending_changes() {
        Some(SyncMessage::SyncData { entries, .. }) => assert_eq!(entries.len(), 3),
        _ => panic!("expected a retry"),
    }
}

#[test]
fn send_sync_data_splits_by_size() {
    let m = SyncManager::new(5, 1);
    let es = vec![
        entry(1, 1, 1, OpType::Insert, "A", "a"),
        entry(2, 1, 2, OpType::Insert, "B", "b"),
        entry(3, 1, 3, OpType::Insert, "C", "c"),
    ];
    let parts = m.send_sync_data(&es, &vec![6, 5, 20], 12);
    let lens: Vec<usize> = parts
        .iter()
        .map(|p| match p {
            SyncMessage::SyncData { user_id, entries } => {
                assert_eq!(*user_id, 5);
                entries.len()
            }
            _ => panic!("expected SyncData"),
        })
        .collect();
    assert_eq!(lens, vec![2, 1]);
    assert!(m.send_sync_data(&Vec::new(), &Vec::new(), 12).is_empty());
}
