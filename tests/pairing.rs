use nexus_core::{AuthResponse, AuthResult, DeviceAuthManager};

fn response(challenge: u128) -> AuthResponse {
    AuthResponse {
        challenge_id: challenge,
        device_id: 55,
        device_type: "desktop".to_string(),
        device_name: "Device-1".to_string(),
        new_device_public_key: vec![0u8; 32],
        nonce_signature: vec![0u8; 64],
    }
}

#[test]
fn expired_challenge_is_refused() {
    let mut m = DeviceAuthManager::new();
    let t0 = 1_700_000_000u64;
    let s = m.issue_challenge(9, "peer".to_string(), "/ip4/1.2.3.4/tcp/1".to_string(), vec![1, 2, 3], 4, t0);
    assert_eq!(s.expires_at, t0 + 300);
    let r = m.authorize_with(response(9), t0 + 360, true);
    assert!(matches!(r, AuthResult::ChallengeExpired));
    assert!(m.sessions.is_empty());
}

#[test]
fn valid_response_authorizes_once() {
    let mut m = DeviceAuthManager::new();
    m.issue_challenge(9, "peer".to_string(), "addr".to_string(), vec![1], 4, 0);
    match m.authorize_with(response(9), 10, true) {
        AuthResult::Authorized { device_id, user_id, device_type, .. } => {
            assert_eq!(device_id, 55);
            assert_eq!(user_id, 4);
            assert_eq!(device_type, "desktop");
        }
        _ => panic!("expected authorization"),
    }
    assert!(matches!(m.authorize_with(response(9), 11, true), AuthResult::UnknownChallenge));
}

#[test]
fn bad_signature_is_refused_and_session_kept() {
    let mut m = DeviceAuthManager::new();
    m.issue_challenge(9, "peer".to_string(), "addr".to_string(), vec![1, 2], 4, 0);
    assert!(matches!(m.authorize_with(response(9), 10, false), AuthResult::InvalidSignature));
    assert_eq!(m.sessions.len(), 1);
    assert!(matches!(m.authorize(response(9), 10), AuthResult::InvalidSignature));
    assert!(matches!(m.authorize(response(8), 10), AuthResult::UnknownChallenge));
}

#[test]
fn reissuing_a_challenge_replaces_it() {
    let mut m = DeviceAuthManager::new();
    m.issue_challenge(9, "a".to_string(), "x".to_string(), vec![1], 4, 0);
    m.issue_challenge(9, "b".to_string(), "y".to_string(), vec![2], 5, 100);
    assert_eq!(m.sessions.len(), 1);
    assert_eq!(m.sessions[0].authorizer_peer_id, "b");
    assert_eq!(m.sessions[0].expires_at, 400);
}
