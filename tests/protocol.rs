use sync_clipboard::message::{open_payload, seal_payload, OpenError};
use sync_clipboard::crypto::{encrypt, key_from_password};
use sync_clipboard::protocol::{deserialize, serialize, ClipboardData, PayloadError};

fn image() -> ClipboardData {
    ClipboardData::Image { width: 300, height: 1, bytes: vec![7u8; 1200] }
}

#[test]
fn text_encoding_is_tag_length_bytes() {
    assert_eq!(serialize(&ClipboardData::Text("hi".to_string())), vec![0, 2, b'h', b'i']);
}

#[test]
fn image_encoding_uses_varints() {
    let d = ClipboardData::Image { width: 1, height: 300, bytes: vec![1, 2, 3, 4] };
    assert_eq!(serialize(&d), vec![1, 1, 251, 44, 1, 4, 1, 2, 3, 4]);
}

#[test]
fn deserialize_reverses_serialize() {
    for d in [ClipboardData::Text("héllo".to_string()), ClipboardData::Text(String::new()), image()] {
        let mut bytes = serialize(&d);
        assert_eq!(deserialize(&bytes), Ok(d.clone()));
        bytes.push(99);
        assert_eq!(deserialize(&bytes), Ok(d));
    }
}

#[test]
fn deserialize_rejects_bad_bytes() {
    assert_eq!(deserialize(&[]), Err(PayloadError::Malformed));
    assert_eq!(deserialize(&[2, 0]), Err(PayloadError::Malformed));
    assert_eq!(deserialize(&[0, 5, b'a']), Err(PayloadError::Malformed));
    assert_eq!(deserialize(&[0, 2, 0xff, 0xfe]), Err(PayloadError::Malformed));
    assert_eq!(deserialize(&[1, 1, 1]), Err(PayloadError::Malformed));
}

#[test]
fn duplicate_keeps_value() {
    let d = image();
    assert_eq!(d.duplicate(), d);
}

#[test]
fn sealed_payload_round_trips() {
    let key = key_from_password("passphrase");
    for d in [ClipboardData::Text("hello".to_string()), image()] {
        let env = seal_payload(&d, &key).unwrap();
        assert_eq!(env.len(), 12 + serialize(&d).len() + 16);
        assert_eq!(open_payload(&env, &key), Ok(d));
    }
}

#[test]
fn open_payload_reports_each_failure() {
    let key = key_from_password("passphrase");
    let env = seal_payload(&ClipboardData::Text("x".to_string()), &key).unwrap();
    assert_eq!(open_payload(&env, &key_from_password("other")), Err(OpenError::AuthFailure));
    let junk = encrypt(&[9, 9], &key).unwrap();
    assert_eq!(open_payload(&junk, &key), Err(OpenError::Deserialization));
}

#[test]
fn deserialize_accepts_long_form_varints() {
    // variant index 0 written in the two-byte form
    assert_eq!(deserialize(&[251, 0, 0, 2, b'h', b'i']), Ok(ClipboardData::Text("hi".to_string())));
}

#[test]
fn deserialize_refuses_lengths_beyond_the_input() {
    // text declaring 2^40 bytes
    assert_eq!(deserialize(&[0, 253, 0, 0, 0, 0, 0, 1, 0, 0, b'a']), Err(PayloadError::Malformed));
    // pixels declaring 2^40 bytes
    assert_eq!(
        deserialize(&[1, 1, 1, 253, 0, 0, 0, 0, 0, 1, 0, 0, 7]),
        Err(PayloadError::Malformed)
    );
    // text declaring one byte more than is there
    assert_eq!(deserialize(&[0, 3, b'a', b'b']), Err(PayloadError::Malformed));
}

#[test]
fn large_text_round_trips() {
    let d = ClipboardData::Text("x".repeat(70_000));
    let bytes = serialize(&d);
    assert_eq!(&bytes[..4], &[0, 252, 0x70, 0x11]);
    assert_eq!(deserialize(&bytes), Ok(d));
}
