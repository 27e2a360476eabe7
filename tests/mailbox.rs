use relay_core::device::DeviceRegistry;
use relay_core::error::{HandlerError, InternalError};
use relay_core::message::{add_message, check_mailbox, Mailbox, MailboxReturn, NewMessage};
use relay_core::session::SessionInfo;

fn message(recipient: u128, sender: u128, text: &str) -> NewMessage {
    NewMessage {
        recipient,
        message_type: "text".to_string(),
        sender,
        payload: format!("{{\"body\":\"{}\"}}", text),
    }
}

fn bodies(r: &[MailboxReturn]) -> Vec<String> {
    r.iter().map(|m| m.payload.clone()).collect()
}

fn devices_of_user(user: u128, ids: &[u128]) -> DeviceRegistry {
    let mut devices = DeviceRegistry::new();
    for id in ids {
        devices.register(*id, vec![0u8; 32]).unwrap();
        assert!(devices.set_owner(*id, user));
    }
    devices
}

#[test]
fn each_device_gets_message_once() {
    let devices = devices_of_user(100, &[1, 2]);
    let mut mailbox = Mailbox::new();
    assert!(matches!(mailbox.submit(&devices, message(100, 9, "hi"), 500, 10), Ok(500)));
    let first = check_mailbox(&mut mailbox, 1);
    assert_eq!(first.len(), 1);
    assert_eq!(first[0].sender, 9);
    assert_eq!(first[0].message_type, "text");
    assert_eq!(first[0].timestamp, 10);
    assert_eq!(first[0].payload, "{\"body\":\"hi\"}");
    let second = check_mailbox(&mut mailbox, 1);
    assert!(second.is_empty());
    let other = check_mailbox(&mut mailbox, 2);
    assert_eq!(bodies(&other), vec!["{\"body\":\"hi\"}".to_string()]);
    assert!(check_mailbox(&mut mailbox, 2).is_empty());
}

#[test]
fn fan_out_is_frozen_at_submission() {
    let mut devices = devices_of_user(100, &[1]);
    let mut mailbox = Mailbox::new();
    mailbox.submit(&devices, message(100, 9, "early"), 1, 10).unwrap();
    devices.register(2, vec![0u8; 32]).unwrap();
    assert!(devices.set_owner(2, 100));
    assert!(check_mailbox(&mut mailbox, 2).is_empty());
    mailbox.submit(&devices, message(100, 9, "late"), 2, 20).unwrap();
    assert_eq!(bodies(&check_mailbox(&mut mailbox, 2)), vec!["{\"body\":\"late\"}".to_string()]);
    assert_eq!(
        bodies(&check_mailbox(&mut mailbox, 1)),
        vec!["{\"body\":\"early\"}".to_string(), "{\"body\":\"late\"}".to_string()]
    );
}

#[test]
fn failed_submission_writes_nothing() {
    let devices = devices_of_user(100, &[1, 2]);
    let mut mailbox = Mailbox::new();
    mailbox.submit(&devices, message(100, 9, "first"), 7, 10).unwrap();
    let r = mailbox.submit(&devices, message(100, 9, "second"), 7, 11);
    assert!(matches!(
        r,
        Err(HandlerError::InternalError { error: InternalError::DatabaseError })
    ));
    assert_eq!(bodies(&check_mailbox(&mut mailbox, 1)), vec!["{\"body\":\"first\"}".to_string()]);
    assert_eq!(bodies(&check_mailbox(&mut mailbox, 2)), vec!["{\"body\":\"first\"}".to_string()]);
}

#[test]
fn poll_orders_by_reception_time() {
    let devices = devices_of_user(100, &[1]);
    let mut mailbox = Mailbox::new();
    mailbox.submit(&devices, message(100, 9, "c"), 1, 30).unwrap();
    mailbox.submit(&devices, message(100, 9, "a"), 2, 10).unwrap();
    mailbox.submit(&devices, message(100, 9, "b"), 3, 20).unwrap();
    mailbox.submit(&devices, message(100, 9, "a2"), 4, 10).unwrap();
    let r = check_mailbox(&mut mailbox, 1);
    let times: Vec<i64> = r.iter().map(|m| m.timestamp).collect();
    assert_eq!(times, vec![10, 10, 20, 30]);
    assert_eq!(r[2].payload, "{\"body\":\"b\"}");
    assert_eq!(r[3].payload, "{\"body\":\"c\"}");
}

#[test]
fn recipient_without_devices_gets_no_backlog() {
    let devices = devices_of_user(100, &[1]);
    let mut mailbox = Mailbox::new();
    assert!(matches!(mailbox.submit(&devices, message(200, 9, "lost"), 5, 1), Ok(5)));
    assert!(check_mailbox(&mut mailbox, 1).is_empty());
    assert!(matches!(
        mailbox.submit(&devices, message(200, 9, "again"), 5, 2),
        Err(HandlerError::InternalError { .. })
    ));
}

#[test]
fn only_own_backlog_is_drained() {
    let mut devices = devices_of_user(100, &[1]);
    devices.register(3, vec![0u8; 32]).unwrap();
    devices.set_owner(3, 300);
    let mut mailbox = Mailbox::new();
    mailbox.submit(&devices, message(100, 9, "to100"), 1, 1).unwrap();
    mailbox.submit(&devices, message(300, 9, "to300"), 2, 2).unwrap();
    assert_eq!(bodies(&check_mailbox(&mut mailbox, 3)), vec!["{\"body\":\"to300\"}".to_string()]);
    assert_eq!(bodies(&check_mailbox(&mut mailbox, 1)), vec!["{\"body\":\"to100\"}".to_string()]);
}

#[test]
fn add_message_uses_fresh_id_and_clock() {
    let devices = devices_of_user(100, &[1, 2]);
    let mut mailbox = Mailbox::new();
    let rng = ring::rand::SystemRandom::new();
    let a = add_message(&mut mailbox, &devices, message(100, 9, "x"), &rng).unwrap();
    let b = add_message(&mut mailbox, &devices, message(100, 9, "y"), &rng).unwrap();
    assert_ne!(a, b);
    let r = check_mailbox(&mut mailbox, 1);
    assert_eq!(r.len(), 2);
    assert!(r[0].timestamp > 1_600_000_000);
    assert!(r[0].timestamp <= r[1].timestamp);
}

#[test]
fn sender_comes_from_verified_identity() {
    let owned = SessionInfo { device_id: 1, user_id: Some(42) };
    let m = NewMessage::from_session(owned, 7, "text".to_string(), "{}".to_string()).unwrap();
    assert_eq!(m.sender, 42);
    assert_eq!(m.recipient, 7);
    assert_eq!(m.message_type, "text");
    assert_eq!(m.payload, "{}");
    let anonymous = SessionInfo { device_id: 1, user_id: None };
    assert!(matches!(
        NewMessage::from_session(anonymous, 7, "text".to_string(), "{}".to_string()),
        Err(HandlerError::AuthenticationError)
    ));
}
