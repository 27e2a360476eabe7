use relay_core::device::DeviceRegistry;
use relay_core::error::{Entity, HandlerError, InternalError};
use relay_core::session::{verify_and_rotate, SessionRequest, SessionStore};
use relay_core::user::{
    add_otks, check_signed_prekey, create_user, retrieve_package, update_prekey, PreKeyUpdate,
    UserCreation, UserRegistry,
};
use ring::signature::{Ed25519KeyPair, KeyPair};

fn key_pair(seed: u8) -> Ed25519KeyPair {
    Ed25519KeyPair::from_seed_unchecked(&[seed; 32]).unwrap()
}

fn creation(kp: &Ed25519KeyPair, email: &str) -> UserCreation {
    let prekey = vec![4u8; 32];
    UserCreation {
        email: email.to_string(),
        identity_key: kp.public_key().as_ref().to_vec(),
        signed_prekey: prekey.clone(),
        prekey_signature: kp.sign(&prekey).as_ref().to_vec(),
        nickname: Some("nick".to_string()),
        bio: None,
    }
}

#[test]
fn signed_prekey_check() {
    let kp = key_pair(1);
    let c = creation(&kp, "a@example.org");
    assert!(check_signed_prekey(&c.identity_key, &c.signed_prekey, &c.prekey_signature).is_ok());
    assert!(matches!(
        check_signed_prekey(&c.identity_key, &vec![5u8; 32], &c.prekey_signature),
        Err(HandlerError::SignatureMismatch)
    ));
}

#[test]
fn create_user_owns_device() {
    let kp = key_pair(2);
    let device_kp = key_pair(3);
    let rng = ring::rand::SystemRandom::new();
    let mut devices = DeviceRegistry::new();
    devices.register(10, device_kp.public_key().as_ref().to_vec()).unwrap();
    let mut users = UserRegistry::new();
    let user = create_user(&mut users, &mut devices, creation(&kp, "b@example.org"), 10, &rng).unwrap();
    assert_eq!(devices.lookup(10).unwrap().1, Some(user));
    let mut store = SessionStore::new();
    store.issue(vec![1u8; 16], 0).unwrap();
    let req = SessionRequest {
        device_id: 10,
        nonce: vec![1u8; 16],
        signed_nonce: device_kp.sign(&[1u8; 16]).as_ref().to_vec(),
    };
    let r = verify_and_rotate(&mut store, &devices, &req, vec![2u8; 16], 1).unwrap();
    assert_eq!(r.1, Some(user));
}

#[test]
fn create_user_refusals() {
    let rng = ring::rand::SystemRandom::new();
    let kp = key_pair(4);
    let mut devices = DeviceRegistry::new();
    devices.register(10, vec![0u8; 32]).unwrap();
    let mut users = UserRegistry::new();
    let mut bad = creation(&kp, "c@example.org");
    bad.signed_prekey = vec![9u8; 32];
    assert!(matches!(
        create_user(&mut users, &mut devices, bad, 10, &rng),
        Err(HandlerError::SignatureMismatch)
    ));
    assert_eq!(devices.lookup(10).unwrap().1, None);
    create_user(&mut users, &mut devices, creation(&kp, "c@example.org"), 10, &rng).unwrap();
    match create_user(&mut users, &mut devices, creation(&kp, "c@example.org"), 10, &rng) {
        Err(HandlerError::RecordMustBeUnique { name }) => assert_eq!(name, "email"),
        _ => panic!("a second user with the same email was accepted"),
    }
}

#[test]
fn register_refuses_taken_id() {
    let kp = key_pair(5);
    let mut devices = DeviceRegistry::new();
    let mut users = UserRegistry::new();
    assert!(matches!(users.register(&mut devices, creation(&kp, "d@example.org"), 3, 99), Ok(3)));
    assert!(matches!(
        users.register(&mut devices, creation(&kp, "e@example.org"), 3, 99),
        Err(HandlerError::InternalError { error: InternalError::DatabaseError })
    ));
}

#[test]
fn prekey_rotation() {
    let kp = key_pair(6);
    let mut devices = DeviceRegistry::new();
    let mut users = UserRegistry::new();
    users.register(&mut devices, creation(&kp, "f@example.org"), 1, 50).unwrap();
    let new_prekey = vec![7u8; 32];
    let good = PreKeyUpdate {
        signed_prekey: new_prekey.clone(),
        prekey_signature: kp.sign(&new_prekey).as_ref().to_vec(),
    };
    let bad = PreKeyUpdate { signed_prekey: vec![8u8; 32], prekey_signature: vec![0u8; 64] };
    assert!(matches!(update_prekey(&mut users, bad, 1), Err(HandlerError::SignatureMismatch)));
    assert!(matches!(
        update_prekey(&mut users, good.clone(), 2),
        Err(HandlerError::UnknownEntity { entity: Entity::User { uuid: 2 } })
    ));
    assert!(update_prekey(&mut users, good, 1).is_ok());
    add_otks(&mut users, &vec!["AQID".to_string()], 1).unwrap();
    let package = retrieve_package(&mut users, 1).unwrap();
    assert_eq!(package.signed_prekey, new_prekey);
}

#[test]
fn onetime_keys_are_handed_out_once_oldest_first() {
    let kp = key_pair(7);
    let mut devices = DeviceRegistry::new();
    let mut users = UserRegistry::new();
    users.register(&mut devices, creation(&kp, "g@example.org"), 1, 50).unwrap();
    users.register(&mut devices, creation(&kp, "h@example.org"), 2, 51).unwrap();
    assert_eq!(add_otks(&mut users, &vec![], 1).unwrap(), 0);
    assert_eq!(add_otks(&mut users, &vec!["AAEC".to_string()], 2).unwrap(), 1);
    assert_eq!(add_otks(&mut users, &vec!["AQID".to_string(), "/w==".to_string()], 1).unwrap(), 2);
    let first = retrieve_package(&mut users, 1).unwrap();
    assert_eq!(first.onetime_key, vec![1u8, 2, 3]);
    assert_eq!(first.identity_key, kp.public_key().as_ref().to_vec());
    assert_eq!(first.signed_prekey, vec![4u8; 32]);
    let second = retrieve_package(&mut users, 1).unwrap();
    assert_eq!(second.onetime_key, vec![255u8]);
    assert!(matches!(retrieve_package(&mut users, 1), Err(HandlerError::InsufficientPrekeys)));
    assert_eq!(retrieve_package(&mut users, 2).unwrap().onetime_key, vec![0u8, 1, 2]);
    assert!(matches!(
        retrieve_package(&mut users, 3),
        Err(HandlerError::UnknownEntity { entity: Entity::User { uuid: 3 } })
    ));
}

#[test]
fn onetime_keys_refusals() {
    let kp = key_pair(8);
    let mut devices = DeviceRegistry::new();
    let mut users = UserRegistry::new();
    users.register(&mut devices, creation(&kp, "i@example.org"), 1, 50).unwrap();
    match add_otks(&mut users, &vec!["AQID".to_string(), "***".to_string()], 1) {
        Err(HandlerError::MalformedBody { error_message }) => assert_eq!(error_message, "base64 error"),
        _ => panic!("an undecodable key was accepted"),
    }
    assert!(matches!(retrieve_package(&mut users, 1), Err(HandlerError::InsufficientPrekeys)));
    assert_eq!(add_otks(&mut users, &vec!["AQID".to_string()], 1).unwrap(), 1);
    assert!(matches!(
        add_otks(&mut users, &vec!["AQID".to_string()], 9),
        Err(HandlerError::InternalError { error: InternalError::DatabaseError })
    ));
}

#[test]
fn devices_of_lists_owned_devices() {
    let mut devices = DeviceRegistry::new();
    devices.register(1, vec![1u8; 32]).unwrap();
    devices.register(2, vec![2u8; 32]).unwrap();
    devices.register(3, vec![3u8; 32]).unwrap();
    devices.set_owner(1, 7);
    devices.set_owner(3, 7);
    devices.set_owner(2, 8);
    let mut mine = devices.devices_of(7);
    mine.sort();
    assert_eq!(mine, vec![1, 3]);
    assert!(!devices.set_owner(4, 7));
    assert!(matches!(
        devices.register(2, vec![0u8; 32]),
        Err(HandlerError::InternalError { error: InternalError::DatabaseError })
    ));
    assert_eq!(devices.lookup(2).unwrap().0, vec![2u8; 32]);
}
