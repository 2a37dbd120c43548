use sync_clipboard::crypto::key_from_password;
use sync_clipboard::message::seal_payload;
use sync_clipboard::protocol::ClipboardData;
use sync_clipboard::relay::{admit_frame, should_forward, Relay};

#[test]
fn no_self_echo() {
    let mut relay = Relay::new();
    let a = relay.join().unwrap();
    let b = relay.join().unwrap();
    assert_ne!(a, b);
    assert_eq!(relay.recipients(a), vec![b]);
    assert!(should_forward(a, b));
    assert!(!should_forward(a, a));
}

#[test]
fn fan_out_reaches_every_other_session() {
    let mut relay = Relay::new();
    let a = relay.join().unwrap();
    let b = relay.join().unwrap();
    let c = relay.join().unwrap();
    assert_eq!(relay.len(), 3);
    assert_eq!(relay.recipients(a), vec![b, c]);
    assert_eq!(relay.recipients(b), vec![a, c]);
}

#[test]
fn leave_removes_only_that_session() {
    let mut relay = Relay::new();
    let a = relay.join().unwrap();
    let b = relay.join().unwrap();
    let c = relay.join().unwrap();
    relay.leave(b);
    assert_eq!(relay.recipients(a), vec![c]);
    relay.leave(b);
    assert_eq!(relay.len(), 2);
    let d = relay.join().unwrap();
    assert!(d != a && d != b && d != c);
}

#[test]
fn only_valid_frames_are_admitted() {
    let key = key_from_password("k");
    let env = seal_payload(&ClipboardData::Text("t".to_string()), &key).unwrap();
    assert!(admit_frame(&env, &key));
    assert!(!admit_frame(&env, &key_from_password("other")));
    assert!(!admit_frame(&[1, 2, 3], &key));
}
