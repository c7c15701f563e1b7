use protocol_sdk::cross_chain::CrossChain;
use protocol_sdk::cross_chain::CrossChainCore;
use protocol_sdk::errors::CrossChainError;
use protocol_sdk::greeting::Greeting;
use protocol_sdk::envelope::Content;
use protocol_sdk::envelope::Message;
use protocol_sdk::envelope::SQoS;
use protocol_sdk::envelope::Session;
use protocol_sdk::envelope::SESSION_TYPE_EXPECT_RESPONSE;
use protocol_sdk::envelope::SESSION_TYPE_IS_RESPONSE;
use protocol_sdk::payload::Payload;
use protocol_sdk::value::Value;

fn fresh_core() -> CrossChain {
    CrossChain::new(String::from("owner.testnet"), String::from("relay.testnet"))
}

fn small_content() -> Content {
    let mut data = Payload::new();
    data.push_item(String::from("k"), Value::Uint8(1));
    Content { contract: vec![0x0b], action: b"recv".to_vec(), data }
}

#[test]
fn call_cross_carries_no_session() {
    let core = fresh_core();
    let out = core.call_cross(String::from("chainB"), small_content());
    assert_eq!(out.to_chain, String::from("chainB"));
    assert_eq!(out.content, small_content());
    assert!(out.session.is_none());
}

#[test]
fn call_cross_with_session_expects_response() {
    let core = fresh_core();
    let out = core.call_cross_with_session(
        String::from("chainB"),
        small_content(),
        b"recv_result".to_vec(),
    );
    let session = out.session.unwrap();
    assert_eq!(session.session_type, SESSION_TYPE_EXPECT_RESPONSE);
    assert_eq!(session.id, 0);
    assert_eq!(session.callback, Some(b"recv_result".to_vec()));
    assert_eq!(session.commitment, None);
    assert_eq!(session.answer, None);
}

#[test]
fn send_response_message_is_response_with_given_id() {
    let core = fresh_core();
    let out = core.send_response_message(String::from("chainA"), small_content(), 7);
    assert_eq!(out.to_chain, String::from("chainA"));
    let session = out.session.unwrap();
    assert_eq!(session.session_type, SESSION_TYPE_IS_RESPONSE);
    assert_eq!(session.id, 7);
    assert_eq!(session.callback, None);
}

fn sample_message(extra: u8) -> Message {
    let mut data = Payload::new();
    data.push_item(String::from("n"), Value::Uint8(extra));
    Message {
        from_chain: String::from("chainA"),
        to_chain: String::from("chainB"),
        sender: vec![0x0a],
        signer: vec![0x0a],
        sqos: vec![SQoS { t: 1, v: Some(vec![2, 3]) }, SQoS { t: 0, v: None }],
        content: Content { contract: vec![0x0b], action: b"recv_sum".to_vec(), data },
        session: Session {
            id: 7,
            session_type: SESSION_TYPE_IS_RESPONSE,
            callback: None,
            commitment: None,
            answer: None,
        },
    }
}

#[test]
fn to_hash_is_sixty_four_hex_digits() {
    let h = sample_message(1).to_hash();
    assert_eq!(h.len(), 64);
    assert!(h.chars().all(|c| c.is_ascii_hexdigit() && !c.is_ascii_uppercase()));
}

#[test]
fn to_hash_is_deterministic_and_content_sensitive() {
    assert_eq!(sample_message(1).to_hash(), sample_message(1).to_hash());
    assert_ne!(sample_message(1).to_hash(), sample_message(2).to_hash());
}

#[test]
fn error_descriptions_are_stable() {
    assert_eq!(CrossChainError::AuthorizationError.describe(), "unauthorized");
    assert_eq!(CrossChainError::NotRegisteredError.describe(), "not registered");
    assert_eq!(CrossChainError::RelayDispatchError.describe(), "relay dispatch failed");
    assert_eq!(CrossChainError::CodecMismatchError.describe(), "codec mismatch");
    assert_eq!(CrossChainError::AlreadyGrantedError.describe(), "already granted");
}

#[test]
fn dispatch_surface_is_reachable_through_the_trait() {
    let g = Greeting::new(String::from("owner.testnet"), String::from("relay.testnet"));
    let out = g.send_response_message(String::from("chainA"), small_content(), 7);
    assert_eq!(out.session.unwrap().session_type, SESSION_TYPE_IS_RESPONSE);
    let fire = g.call_cross(String::from("chainA"), small_content());
    assert!(fire.session.is_none());
}

#[test]
fn canonical_bytes_contain_the_payload_fields() {
    let bytes = sample_message(1).canonical_bytes();
    // The canonical form starts with the length-prefixed origin chain.
    assert_eq!(&bytes[0..8], &[0u8, 0, 0, 0, 0, 0, 0, 6]);
    assert_eq!(&bytes[8..14], b"chainA");
    assert_eq!(&bytes[14..22], &[0u8, 0, 0, 0, 0, 0, 0, 6]);
    assert_eq!(&bytes[22..28], b"chainB");
}
