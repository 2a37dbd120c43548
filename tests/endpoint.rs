use sync_clipboard::crypto::key_from_password;
use sync_clipboard::endpoint::{seal_frame, Endpoint};
use sync_clipboard::framing::parse_frame;
use sync_clipboard::protocol::ClipboardData;

fn text(s: &str) -> ClipboardData {
    ClipboardData::Text(s.to_string())
}

fn img(b: u8) -> ClipboardData {
    ClipboardData::Image { width: 1, height: 1, bytes: vec![b, b, b, 255] }
}

#[test]
fn echo_of_applied_text_is_suppressed() {
    let key = key_from_password("shared");
    let mut e = Endpoint::new(Some("before".to_string()));
    let frame = seal_frame(&text("hello"), &key).unwrap();
    let (body, _) = parse_frame(&frame).unwrap();
    assert_eq!(e.receive(&body, &key), Some(text("hello")));
    assert_eq!(e.last_applied(), Some(text("hello")));
    assert_eq!(e.poll(Some(text("hello"))), None);
    assert_eq!(e.last_applied(), None);
    assert_eq!(e.poll(Some(text("world"))), Some(text("world")));
}

#[test]
fn type_change_bypasses_suppression() {
    let mut e = Endpoint::new(None);
    e.record_applied(&text("hello"));
    assert_eq!(e.poll(Some(img(1))), Some(img(1)));
    let mut f = Endpoint::new(None);
    f.record_applied(&img(1));
    assert_eq!(f.poll(Some(text("x"))), Some(text("x")));
}

#[test]
fn image_after_applied_image_is_suppressed() {
    let mut e = Endpoint::new(None);
    e.record_applied(&img(1));
    assert_eq!(e.poll(Some(img(2))), None);
    assert_eq!(e.poll(Some(img(2))), Some(img(2)));
}

#[test]
fn unchanged_text_is_not_sent() {
    let mut e = Endpoint::new(Some("same".to_string()));
    assert_eq!(e.poll(Some(text("same"))), None);
    assert_eq!(e.poll(None), None);
    assert_eq!(e.poll(Some(text("new"))), Some(text("new")));
    assert_eq!(e.last_text(), Some("new".to_string()));
    assert_eq!(e.poll(Some(text("new"))), None);
}

#[test]
fn poll_clears_applied_even_without_candidate() {
    let mut e = Endpoint::new(Some("a".to_string()));
    e.record_applied(&text("b"));
    assert_eq!(e.poll(None), None);
    assert_eq!(e.last_applied(), None);
    assert_eq!(e.poll(Some(text("b"))), Some(text("b")));
}

#[test]
fn bad_envelope_leaves_state_alone() {
    let key = key_from_password("shared");
    let mut e = Endpoint::new(None);
    e.record_applied(&text("kept"));
    let frame = seal_frame(&text("x"), &key_from_password("other")).unwrap();
    assert_eq!(e.receive(&frame[4..], &key), None);
    assert_eq!(e.last_applied(), Some(text("kept")));
}

#[test]
fn undecodable_plaintext_leaves_state_alone() {
    let key = key_from_password("shared");
    let mut e = Endpoint::new(None);
    e.record_applied(&text("kept"));
    let env = sync_clipboard::crypto::encrypt(&[7, 7, 7], &key).unwrap();
    assert_eq!(e.receive(&env, &key), None);
    assert_eq!(e.last_applied(), Some(text("kept")));
}
