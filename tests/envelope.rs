use libp2p::identity::{ed25519, PublicKey};
use nexus_core::account::{normalize_device, normalize_login, normalize_registration};
use nexus_core::qr::{
    challenge_payload, decode_qr, encode_qr, hex_to_bytes, hex_to_u128, scan_qr_code, split_fields,
    u128_to_hex, AuthChallenge, ScanError,
};
use nexus_core::{AuthResponse, AuthResult, DeviceAuthManager};

fn challenge(kp: &ed25519::Keypair) -> AuthChallenge {
    let pk = kp.public();
    AuthChallenge {
        challenge_id: 0x0123_4567_89ab_cdef_0011_2233_4455_6677,
        authorizer_peer_id: PublicKey::from(pk.clone()).to_peer_id().to_base58(),
        dial_address: "/ip4/192.168.1.2/tcp/4001".to_string(),
        nonce: (0u8..32).collect(),
        expires_at: 1_700_000_300,
        user_id: 42,
        authorizer_public_key: pk.to_bytes().to_vec(),
    }
}

#[test]
fn qr_code_round_trips_and_verifies() {
    let kp = ed25519::Keypair::generate();
    let c = challenge(&kp);
    let payload = challenge_payload(&c);
    assert!(payload.starts_with("nx1|0123456789abcdef0011223344556677|"));
    let sig = kp.sign(payload.as_bytes());
    let text = encode_qr(&c, &sig);
    let (d, s) = decode_qr(&text).expect("decodes");
    assert_eq!(d.challenge_id, c.challenge_id);
    assert_eq!(d.dial_address, c.dial_address);
    assert_eq!(d.nonce, c.nonce);
    assert_eq!(d.expires_at, 1_700_000_300);
    assert_eq!(d.user_id, 42);
    assert_eq!(s, sig);
    let scanned = scan_qr_code(&text).ok().expect("valid code");
    assert_eq!(scanned.authorizer_peer_id, c.authorizer_peer_id);
}

#[test]
fn qr_code_tampering_is_detected() {
    let kp = ed25519::Keypair::generate();
    let mut c = challenge(&kp);
    let sig = kp.sign(challenge_payload(&c).as_bytes());
    c.expires_at += 1;
    let text = encode_qr(&c, &sig);
    assert!(matches!(scan_qr_code(&text), Err(ScanError::InvalidSignature)));
    c.authorizer_peer_id = "someone-else".to_string();
    let text = encode_qr(&c, &sig);
    assert!(matches!(scan_qr_code(&text), Err(ScanError::PeerMismatch)));
    assert!(matches!(scan_qr_code("nx1|zz"), Err(ScanError::Malformed)));
    assert!(matches!(scan_qr_code(""), Err(ScanError::Malformed)));
}

#[test]
fn hex_and_split_helpers() {
    assert_eq!(u128_to_hex(255), "000000000000000000000000000000ff");
    assert_eq!(hex_to_u128("000000000000000000000000000000ff"), Some(255));
    assert_eq!(hex_to_u128("ff"), None);
    assert_eq!(hex_to_bytes("00ff10"), Some(vec![0, 255, 16]));
    assert_eq!(hex_to_bytes("0"), None);
    assert_eq!(hex_to_bytes("0G"), None);
    assert_eq!(split_fields("a||b"), vec!["a".to_string(), String::new(), "b".to_string()]);
    assert_eq!(split_fields(""), vec![String::new()]);
}

#[test]
fn signed_nonce_authorizes_device() {
    let mut m = DeviceAuthManager::new();
    let nonce: Vec<u8> = vec![7; 32];
    m.issue_challenge(1, "p".to_string(), "a".to_string(), nonce.clone(), 2, 100);
    let device = ed25519::Keypair::generate();
    let good = AuthResponse {
        challenge_id: 1,
        device_id: 3,
        device_type: "phone".to_string(),
        device_name: "Device-x".to_string(),
        new_device_public_key: device.public().to_bytes().to_vec(),
        nonce_signature: device.sign(&nonce),
    };
    let mut forged = AuthResponse {
        challenge_id: 1,
        device_id: 3,
        device_type: "phone".to_string(),
        device_name: "Device-x".to_string(),
        new_device_public_key: device.public().to_bytes().to_vec(),
        nonce_signature: device.sign(&[1, 2, 3]),
    };
    assert!(matches!(m.authorize(forged, 150), AuthResult::InvalidSignature));
    assert!(matches!(m.authorize(good, 150), AuthResult::Authorized { device_id: 3, user_id: 2, .. }));
    forged = AuthResponse {
        challenge_id: 1,
        device_id: 3,
        device_type: String::new(),
        device_name: String::new(),
        new_device_public_key: vec![],
        nonce_signature: vec![],
    };
    assert!(matches!(m.authorize(forged, 150), AuthResult::UnknownChallenge));
}

#[test]
fn registration_is_normalised() {
    let r = normalize_registration("  alice ", " Alice@Example.COM ", "pw").ok().unwrap();
    assert_eq!(r.user_name, "alice");
    assert_eq!(r.user_mail, "alice@example.com");
    assert_eq!(normalize_registration("  ", "a@b", "pw").err(), Some("Username cannot be empty".to_string()));
    assert_eq!(normalize_registration("a", " ", "pw").err(), Some("Email cannot be empty".to_string()));
    assert_eq!(normalize_registration("a", "b", "   ").err(), Some("Password cannot be empty".to_string()));
}

#[test]
fn login_and_device_input_are_checked() {
    let l = normalize_login(" Bob@Mail ", "x").ok().unwrap();
    assert_eq!(l.user_name, "Bob@Mail");
    assert_eq!(l.user_mail, "bob@mail");
    assert_eq!(normalize_login(" ", "x").err(), Some("Identifier cannot be empty".to_string()));
    assert_eq!(normalize_login("bob", "").err(), Some("Password cannot be empty".to_string()));
    let d = normalize_device(" ios ", Some("  ")).ok().unwrap();
    assert_eq!(d.device_type, "ios");
    assert_eq!(d.push_token, None);
    let d = normalize_device("ios", Some(" tok ")).ok().unwrap();
    assert_eq!(d.push_token, Some("tok".to_string()));
    assert_eq!(normalize_device("  ", None).err(), Some("Device type cannot be empty".to_string()));
}
