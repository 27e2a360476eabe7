use relay_core::device::{create_device, DeviceRegistry};
use relay_core::error::{Entity, HandlerError, InternalError};
use relay_core::gate::{authorize, extract_header_data};
use relay_core::keys::{verify, SignatureMismatch};
use relay_core::session::{
    check_session, new_session_request, verify_and_rotate, SessionRequest, SessionResponse,
    SessionStore, NONCE_LEN, SESSION_DURATION,
};
use ring::signature::{Ed25519KeyPair, KeyPair};

fn key_pair(seed: u8) -> Ed25519KeyPair {
    Ed25519KeyPair::from_seed_unchecked(&[seed; 32]).unwrap()
}

fn public_key(kp: &Ed25519KeyPair) -> Vec<u8> {
    kp.public_key().as_ref().to_vec()
}

fn signed(kp: &Ed25519KeyPair, msg: &[u8]) -> Vec<u8> {
    kp.sign(msg).as_ref().to_vec()
}

fn request(device_id: u128, nonce: &[u8], signature: &[u8]) -> SessionRequest {
    SessionRequest { device_id, nonce: nonce.to_vec(), signed_nonce: signature.to_vec() }
}

#[test]
fn verify_accepts_valid_signature_only() {
    let kp = key_pair(1);
    let msg = b"challenge".to_vec();
    let sig = signed(&kp, &msg);
    assert_eq!(verify(&msg, &sig, &public_key(&kp)), Ok(()));
    let mut forged = sig.clone();
    forged[0] ^= 1;
    assert_eq!(verify(&msg, &forged, &public_key(&kp)), Err(SignatureMismatch));
    assert_eq!(verify(&msg, &sig, &public_key(&key_pair(2))), Err(SignatureMismatch));
    assert_eq!(verify(&msg, &sig, &[1u8; 31]), Err(SignatureMismatch));
    assert_eq!(verify(&msg, &sig[..63], &public_key(&kp)), Err(SignatureMismatch));
}

#[test]
fn status_codes() {
    assert_eq!(HandlerError::SessionInvalid.status_code(), 401);
    assert_eq!(HandlerError::SessionExpired.status_code(), 401);
    assert_eq!(HandlerError::AuthenticationError.status_code(), 401);
    assert_eq!(
        HandlerError::UnknownEntity { entity: Entity::Device { uuid: 1 } }.status_code(),
        400
    );
    assert_eq!(HandlerError::MalformedHeader { name: "X-NONCE".to_string() }.status_code(), 400);
    assert_eq!(HandlerError::MalformedBody { error_message: String::new() }.status_code(), 400);
    assert_eq!(HandlerError::from(InternalError::RNGError).status_code(), 500);
    assert!(matches!(
        HandlerError::from(InternalError::PoolError),
        HandlerError::InternalError { error: InternalError::PoolError }
    ));
}

#[test]
fn issue_sets_expiry_one_hour_ahead() {
    let mut store = SessionStore::new();
    assert!(store.issue(vec![5u8; 16], 1000).is_ok());
    assert_eq!(store.lookup(&[5u8; 16]), Some(1000 + SESSION_DURATION));
    assert_eq!(store.lookup(&[6u8; 16]), None);
    assert!(matches!(
        store.issue(vec![5u8; 16], 2000),
        Err(HandlerError::InternalError { error: InternalError::DatabaseError })
    ));
    assert_eq!(store.lookup(&[5u8; 16]), Some(4600));
}

#[test]
fn round_trip_rotates_nonce() {
    let kp = key_pair(3);
    let mut devices = DeviceRegistry::new();
    devices.register(42, public_key(&kp)).unwrap();
    assert!(devices.set_owner(42, 7));
    let mut store = SessionStore::new();
    let nonce = vec![9u8; 16];
    store.issue(nonce.clone(), 100).unwrap();
    let req = request(42, &nonce, &signed(&kp, &nonce));
    let (device, owner, next) = verify_and_rotate(&mut store, &devices, &req, vec![8u8; 16], 200).unwrap();
    assert_eq!(device, 42);
    assert_eq!(owner, Some(7));
    assert_eq!(next, vec![8u8; 16]);
    assert_eq!(store.lookup(&nonce), None);
    assert_eq!(store.lookup(&next), Some(3800));
    assert!(store.lookup(&next).unwrap() > 100 + SESSION_DURATION);
}

#[test]
fn round_trip_device_without_owner() {
    let kp = key_pair(4);
    let mut devices = DeviceRegistry::new();
    devices.register(1, public_key(&kp)).unwrap();
    let mut store = SessionStore::new();
    store.issue(vec![1u8; 16], 0).unwrap();
    let req = request(1, &[1u8; 16], &signed(&kp, &[1u8; 16]));
    let r = verify_and_rotate(&mut store, &devices, &req, vec![2u8; 16], 10).unwrap();
    assert_eq!((r.0, r.1), (1, None));
}

#[test]
fn nonce_is_single_use() {
    let kp = key_pair(5);
    let mut devices = DeviceRegistry::new();
    devices.register(11, public_key(&kp)).unwrap();
    let mut store = SessionStore::new();
    let nonce = vec![3u8; 16];
    store.issue(nonce.clone(), 0).unwrap();
    let req = request(11, &nonce, &signed(&kp, &nonce));
    let first = verify_and_rotate(&mut store, &devices, &req, vec![4u8; 16], 5);
    assert!(first.is_ok());
    assert_ne!(first.unwrap().2, nonce);
    let second = verify_and_rotate(&mut store, &devices, &req, vec![6u8; 16], 6);
    assert!(matches!(second, Err(HandlerError::SessionInvalid)));
    assert_eq!(store.lookup(&[6u8; 16]), None);
}

#[test]
fn interleaved_checks_let_one_write_through() {
    let kp = key_pair(6);
    let mut devices = DeviceRegistry::new();
    devices.register(12, public_key(&kp)).unwrap();
    let mut store = SessionStore::new();
    let nonce = vec![7u8; 16];
    store.issue(nonce.clone(), 0).unwrap();
    let req = request(12, &nonce, &signed(&kp, &nonce));
    assert!(store.authenticate(&devices, &req, 1).is_ok());
    assert!(store.authenticate(&devices, &req, 1).is_ok());
    assert!(store.swap_nonce(&nonce, vec![8u8; 16], 3601).is_ok());
    assert!(matches!(
        store.swap_nonce(&nonce, vec![9u8; 16], 3601),
        Err(HandlerError::SessionInvalid)
    ));
    assert_eq!(store.lookup(&[8u8; 16]), Some(3601));
    assert_eq!(store.lookup(&[9u8; 16]), None);
}

#[test]
fn swap_refuses_nonce_in_use() {
    let mut store = SessionStore::new();
    store.issue(vec![1u8; 16], 0).unwrap();
    store.issue(vec![2u8; 16], 0).unwrap();
    assert!(matches!(
        store.swap_nonce(&[1u8; 16], vec![2u8; 16], 50),
        Err(HandlerError::InternalError { error: InternalError::DatabaseError })
    ));
    assert_eq!(store.lookup(&[1u8; 16]), Some(3600));
}

#[test]
fn expired_session_is_invalid_and_deleted() {
    let kp = key_pair(7);
    let mut devices = DeviceRegistry::new();
    devices.register(13, public_key(&kp)).unwrap();
    let mut store = SessionStore::new();
    let nonce = vec![1u8; 16];
    store.issue(nonce.clone(), 0).unwrap();
    let req = request(13, &nonce, &signed(&kp, &nonce));
    let r = verify_and_rotate(&mut store, &devices, &req, vec![2u8; 16], SESSION_DURATION);
    assert!(matches!(r, Err(HandlerError::SessionInvalid)));
    assert_eq!(store.lookup(&nonce), None);
    let unknown = request(999, &nonce, &[0u8; 64]);
    let again = verify_and_rotate(&mut store, &devices, &unknown, vec![3u8; 16], 0);
    assert!(matches!(again, Err(HandlerError::SessionInvalid)));
}

#[test]
fn bad_signature_is_rejected_and_session_kept() {
    let kp = key_pair(8);
    let mut devices = DeviceRegistry::new();
    devices.register(14, public_key(&kp)).unwrap();
    let mut store = SessionStore::new();
    let nonce = vec![1u8; 16];
    store.issue(nonce.clone(), 0).unwrap();
    let other = key_pair(9);
    let req = request(14, &nonce, &signed(&other, &nonce));
    let r = verify_and_rotate(&mut store, &devices, &req, vec![2u8; 16], 1);
    assert!(matches!(r, Err(HandlerError::AuthenticationError)));
    assert_eq!(store.lookup(&nonce), Some(3600));
    let short = request(14, &nonce, &[0u8; 10]);
    let r2 = verify_and_rotate(&mut store, &devices, &short, vec![2u8; 16], 1);
    assert!(matches!(r2, Err(HandlerError::AuthenticationError)));
}

#[test]
fn unknown_device_is_reported() {
    let mut devices = DeviceRegistry::new();
    devices.register(1, vec![0u8; 32]).unwrap();
    let mut store = SessionStore::new();
    store.issue(vec![1u8; 16], 0).unwrap();
    let req = request(77, &[1u8; 16], &[0u8; 64]);
    let r = verify_and_rotate(&mut store, &devices, &req, vec![2u8; 16], 1);
    assert!(matches!(
        r,
        Err(HandlerError::UnknownEntity { entity: Entity::Device { uuid: 77 } })
    ));
    assert_eq!(store.lookup(&[1u8; 16]), Some(3600));
}

#[test]
fn bootstrap_then_check_with_real_clock() {
    let rng = ring::rand::SystemRandom::new();
    let kp = key_pair(10);
    let mut devices = DeviceRegistry::new();
    let device = create_device(&mut devices, &public_key(&kp), &rng).unwrap();
    let mut store = SessionStore::new();
    let (nonce, expires) = new_session_request(&mut store, &rng).unwrap();
    assert_eq!(nonce.len(), NONCE_LEN);
    assert_eq!(store.lookup(&nonce), Some(expires));
    assert!(expires > 1_600_000_000 + SESSION_DURATION);
    let req = request(device, &nonce, &signed(&kp, &nonce));
    let (d, owner, next) = check_session(&mut store, &devices, &req, &rng).unwrap();
    assert_eq!(d, device);
    assert_eq!(owner, None);
    assert_eq!(next.len(), NONCE_LEN);
    assert_ne!(next, nonce);
    assert_eq!(store.lookup(&nonce), None);
    assert!(store.lookup(&next).is_some());
    assert!(matches!(
        check_session(&mut store, &devices, &req, &rng),
        Err(HandlerError::SessionInvalid)
    ));
}

#[test]
fn headers_are_read_in_order() {
    let ok = extract_header_data(
        Some("67e55044-10b1-426f-9247-bb680e5fe0c8"),
        Some("AAEC"),
        Some("/w=="),
    )
    .unwrap();
    assert_eq!(ok.device_id, 0x67e5504410b1426f9247bb680e5fe0c8);
    assert_eq!(ok.nonce, vec![0u8, 1, 2]);
    assert_eq!(ok.signed_nonce, vec![255u8]);
    let name = |r: Result<SessionRequest, HandlerError>| match r {
        Err(HandlerError::MalformedHeader { name }) => name,
        _ => String::from("none"),
    };
    assert_eq!(name(extract_header_data(None, Some("AAEC"), Some("AAEC"))), "X-DEVICEID");
    assert_eq!(name(extract_header_data(Some("not-a-uuid"), None, None)), "X-DEVICEID");
    assert_eq!(
        name(extract_header_data(Some("67e55044-10b1-426f-9247-bb680e5fe0c8"), None, Some("AAEC"))),
        "X-NONCE"
    );
    assert_eq!(
        name(extract_header_data(Some("67e55044-10b1-426f-9247-bb680e5fe0c8"), Some("@@@"), None)),
        "X-NONCE"
    );
    assert_eq!(
        name(extract_header_data(Some("67e55044-10b1-426f-9247-bb680e5fe0c8"), Some("AAEC"), Some("A"))),
        "X-SIGNEDNONCE"
    );
}

#[test]
fn next_nonce_header_is_base64() {
    let r = SessionResponse { nonce: vec![0u8, 1, 2] };
    assert_eq!(r.header_value(), "AAEC");
    let r2 = SessionResponse { nonce: vec![255u8, 255, 255, 255] };
    assert_eq!(r2.header_value(), "/////w==");
}

#[test]
fn gate_grants_identity_and_next_nonce() {
    let rng = ring::rand::SystemRandom::new();
    let kp = key_pair(11);
    let mut devices = DeviceRegistry::new();
    let id: u128 = 0x67e5504410b1426f9247bb680e5fe0c8;
    devices.register(id, public_key(&kp)).unwrap();
    devices.set_owner(id, 5);
    let mut store = SessionStore::new();
    let (nonce, _) = new_session_request(&mut store, &rng).unwrap();
    let nonce_text = SessionResponse { nonce: nonce.clone() }.header_value();
    let sig_text = SessionResponse { nonce: signed(&kp, &nonce) }.header_value();
    let grant = authorize(
        &mut store,
        &devices,
        Some("67e55044-10b1-426f-9247-bb680e5fe0c8"),
        Some(&nonce_text),
        Some(&sig_text),
        &rng,
    )
    .unwrap();
    assert_eq!(grant.session.device_id, id);
    assert_eq!(grant.session.user_id, Some(5));
    assert_eq!(grant.next.nonce.len(), 16);
    assert!(store.lookup(&grant.next.nonce).is_some());
    let replay = authorize(
        &mut store,
        &devices,
        Some("67e55044-10b1-426f-9247-bb680e5fe0c8"),
        Some(&nonce_text),
        Some(&sig_text),
        &rng,
    );
    assert!(matches!(replay, Err(HandlerError::SessionInvalid)));
    let missing = authorize(&mut store, &devices, None, Some(&nonce_text), Some(&sig_text), &rng);
    assert!(matches!(missing, Err(HandlerError::MalformedHeader { .. })));
}
