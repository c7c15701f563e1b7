use protocol_sdk::computing::ComputeTask;
use protocol_sdk::computing::Computation;
use protocol_sdk::computing::MyContract;
use protocol_sdk::cross_chain::RegisterCore;
use protocol_sdk::envelope::Context;
use protocol_sdk::envelope::SQoS;
use protocol_sdk::envelope::Session;
use protocol_sdk::envelope::SESSION_TYPE_EXPECT_RESPONSE;
use protocol_sdk::envelope::SESSION_TYPE_IS_RESPONSE;
use protocol_sdk::errors::CrossChainError;
use protocol_sdk::greeting::Greeting;
use protocol_sdk::payload::Payload;
use protocol_sdk::value::Value;

fn fresh_computation() -> Computation {
    Computation::new(String::from("owner.testnet"), String::from("relay.testnet"))
}

fn nums_payload(nums: Vec<u64>) -> Payload {
    let mut p = Payload::new();
    p.push_item(String::from("nums"), Value::VecUint64(nums));
    p
}

fn inbound_context(from_chain: &str, sender: Vec<u8>, action: &str, id: u128, callback: Option<Vec<u8>>) -> Context {
    Context {
        id,
        from_chain: String::from(from_chain),
        sender: sender.clone(),
        signer: sender,
        contract_id: String::from("local.testnet"),
        action: String::from(action),
        sqos: vec![SQoS { t: 0, v: None }],
        session: Session {
            id,
            session_type: if callback.is_some() {
                SESSION_TYPE_EXPECT_RESPONSE
            } else {
                SESSION_TYPE_IS_RESPONSE
            },
            callback,
            commitment: None,
            answer: None,
        },
    }
}

// Scenario A: a session call is dispatched, the relay later returns
// session id 7, and the pending record keyed (chainB, 7) then exists
// with an absent result.
#[test]
fn session_call_persists_pending_record_under_issued_id() {
    let mut comp = fresh_computation();
    comp.register_dst_contract(
        String::from("owner.testnet"),
        String::from("chainB"),
        String::from("receive_compute_task"),
        String::from("0b"),
        String::from("726563765f73756d"),
    )
    .unwrap();
    let out = comp.send_compute_task(String::from("chainB"), vec![2, 3, 5]).unwrap();
    assert_eq!(out.to_chain, String::from("chainB"));
    assert_eq!(out.content.contract, vec![0x0bu8]);
    assert_eq!(out.content.action, b"recv_sum".to_vec());
    assert_eq!(
        out.content.data.get_item(String::from("nums")),
        Some(Value::VecUint64(vec![2, 3, 5]))
    );
    let session = out.session.unwrap();
    assert_eq!(session.session_type, SESSION_TYPE_EXPECT_RESPONSE);
    assert_eq!(session.callback, Some(b"receive_compute_result".to_vec()));

    // Before the relay answers, nothing is pending.
    assert_eq!(comp.get_compute_task(&String::from("chainB"), 7), None);

    // The relay's call result arrives with session id 7.
    let issued = comp.callback(String::from("chainB"), vec![2, 3, 5], Some(7));
    assert_eq!(issued, Ok(7));
    assert_eq!(
        comp.get_compute_task(&String::from("chainB"), 7),
        Some(ComputeTask { nums: vec![2, 3, 5], result: None })
    );
    // Only that key resolves.
    assert_eq!(comp.get_compute_task(&String::from("chainB"), 8), None);
    assert_eq!(comp.get_compute_task(&String::from("chainC"), 7), None);
}

// A failed relay call persists nothing: no orphaned state.
#[test]
fn failed_relay_call_persists_no_pending_record() {
    let mut comp = fresh_computation();
    let r = MyContract::callback(&mut comp, String::from("chainB"), vec![2, 3, 5], None);
    assert_eq!(r, Err(CrossChainError::RelayDispatchError));
    assert_eq!(comp.get_compute_task(&String::from("chainB"), 7), None);
}

// Scenario B: the responder grants the sender, receives the task, sums
// to ten, and answers through an envelope marked as the response to
// session 7.
#[test]
fn received_task_is_summed_and_answered_on_session_seven() {
    let mut comp = fresh_computation();
    comp.register_permitted_contract(
        String::from("chainA"),
        String::from("0a"),
        String::from("recv_sum"),
    )
    .unwrap();
    let payload = nums_payload(vec![2, 3, 5]);
    let ctx = inbound_context("chainA", vec![0x0a], "recv_sum", 7, Some(b"recv_result".to_vec()));
    let out = comp.receive_compute_task(&payload, &ctx).unwrap().unwrap();
    assert_eq!(out.to_chain, String::from("chainA"));
    assert_eq!(out.content.contract, vec![0x0au8]);
    assert_eq!(out.content.action, b"recv_result".to_vec());
    assert_eq!(
        out.content.data.get_item(String::from("result")),
        Some(Value::Uint128(10))
    );
    let session = out.session.unwrap();
    assert_eq!(session.session_type, SESSION_TYPE_IS_RESPONSE);
    assert_eq!(session.id, 7);
}

// Delivering the same payload and context twice raises no core-level
// error; the permission gate runs on both deliveries.
#[test]
fn duplicate_delivery_raises_no_core_error() {
    let mut comp = fresh_computation();
    comp.register_permitted_contract(
        String::from("chainA"),
        String::from("0a"),
        String::from("recv_sum"),
    )
    .unwrap();
    let payload = nums_payload(vec![2, 3, 5]);
    let ctx = inbound_context("chainA", vec![0x0a], "recv_sum", 7, Some(b"recv_result".to_vec()));
    let first = comp.receive_compute_task(&payload, &ctx);
    let second = comp.receive_compute_task(&payload, &ctx);
    assert!(first.is_ok());
    assert_eq!(first, second);
}

// Scenario C: an ungranted sender is refused before any business logic
// runs, and no side effect is applied.
#[test]
fn ungranted_sender_is_refused_without_side_effects() {
    let comp = fresh_computation();
    let payload = nums_payload(vec![2, 3, 5]);
    let ctx = inbound_context("chainA", vec![0x0a], "recv_sum", 7, Some(b"recv_result".to_vec()));
    let r = comp.receive_compute_task(&payload, &ctx);
    assert_eq!(r, Err(CrossChainError::AuthorizationError));

    // The same gate guards stored state: an ungranted greeting leaves
    // the store untouched.
    let mut greeter =
        Greeting::new(String::from("owner.testnet"), String::from("relay.testnet"));
    let mut gp = Payload::new();
    gp.push_item(
        String::from("greeting"),
        Value::VecString(vec![
            String::from("chainEth"),
            String::from("hello"),
            String::from("text"),
            String::from("2026-01-01"),
        ]),
    );
    let gctx = inbound_context("chainEth", vec![0x0e], "receive_greeting", 1, None);
    let gr = greeter.receive_greeting(&gp, &gctx);
    assert_eq!(gr, Err(CrossChainError::AuthorizationError));
    assert_eq!(greeter.get_greeting(String::from("chainEth")), None);
}

// A granted sender whose triple names a different action is still
// refused: the whole triple gates the call.
#[test]
fn wrong_action_for_granted_sender_is_refused() {
    let mut comp = fresh_computation();
    comp.register_permitted_contract(
        String::from("chainA"),
        String::from("0a"),
        String::from("other_action"),
    )
    .unwrap();
    let payload = nums_payload(vec![2, 3, 5]);
    let ctx = inbound_context("chainA", vec![0x0a], "recv_sum", 7, Some(b"recv_result".to_vec()));
    assert_eq!(
        comp.receive_compute_task(&payload, &ctx),
        Err(CrossChainError::AuthorizationError)
    );
}

// A payload without the expected field is a data error for the
// handler, not a protocol failure.
#[test]
fn missing_or_mistyped_nums_is_codec_mismatch() {
    let mut comp = fresh_computation();
    comp.register_permitted_contract(
        String::from("chainA"),
        String::from("0a"),
        String::from("recv_sum"),
    )
    .unwrap();
    let ctx = inbound_context("chainA", vec![0x0a], "recv_sum", 7, Some(b"recv_result".to_vec()));
    let empty = Payload::new();
    assert_eq!(
        comp.receive_compute_task(&empty, &ctx),
        Err(CrossChainError::CodecMismatchError)
    );
    let mut mistyped = Payload::new();
    mistyped.push_item(String::from("nums"), Value::String(String::from("2,3,5")));
    assert_eq!(
        comp.receive_compute_task(&mistyped, &ctx),
        Err(CrossChainError::CodecMismatchError)
    );
}

// Without a callback in the inbound session, the handler computes but
// sends nothing back.
#[test]
fn task_without_callback_sends_no_response() {
    let mut comp = fresh_computation();
    comp.register_permitted_contract(
        String::from("chainA"),
        String::from("0a"),
        String::from("recv_sum"),
    )
    .unwrap();
    let payload = nums_payload(vec![2, 3, 5]);
    let ctx = inbound_context("chainA", vec![0x0a], "recv_sum", 7, None);
    assert_eq!(comp.receive_compute_task(&payload, &ctx), Ok(None));
}

// The initiator's side of the exchange: the inbound response resolves
// the pending record the relay's id keyed.
#[test]
fn inbound_response_resolves_pending_record() {
    let mut comp = fresh_computation();
    comp.register_dst_contract(
        String::from("owner.testnet"),
        String::from("chainB"),
        String::from("receive_compute_task"),
        String::from("0b"),
        String::from("726563765f73756d"),
    )
    .unwrap();
    comp.send_compute_task(String::from("chainB"), vec![2, 3, 5]).unwrap();
    comp.callback(String::from("chainB"), vec![2, 3, 5], Some(7)).unwrap();
    comp.register_permitted_contract(
        String::from("chainB"),
        String::from("0b"),
        String::from("receive_compute_result"),
    )
    .unwrap();
    let ctx = inbound_context("chainB", vec![0x0b], "receive_compute_result", 7, None);
    assert_eq!(comp.receive_compute_result(10, &ctx), Ok(()));
    assert_eq!(
        comp.get_compute_task(&String::from("chainB"), 7),
        Some(ComputeTask { nums: vec![2, 3, 5], result: Some(10) })
    );
}

// A response that matches no pending record is a registry error.
#[test]
fn response_without_pending_record_is_not_registered() {
    let mut comp = fresh_computation();
    comp.register_permitted_contract(
        String::from("chainB"),
        String::from("0b"),
        String::from("receive_compute_result"),
    )
    .unwrap();
    let ctx = inbound_context("chainB", vec![0x0b], "receive_compute_result", 9, None);
    assert_eq!(
        comp.receive_compute_result(10, &ctx),
        Err(CrossChainError::NotRegisteredError)
    );
}

// The greeting contract end to end: registered destination, outbound
// envelope, gated inbound storage, and lookup.
#[test]
fn greeting_end_to_end() {
    let mut sender =
        Greeting::new(String::from("owner.testnet"), String::from("relay.testnet"));
    sender
        .register_dst_contract(
            String::from("owner.testnet"),
            String::from("chainB"),
            String::from("send_greeting"),
            String::from("0b"),
            String::from("726563656976655f6772656574696e67"),
        )
        .unwrap();
    let out = sender
        .send_greeting(
            String::from("chainB"),
            String::from("hi"),
            String::from("text"),
            String::from("2026-01-01"),
        )
        .unwrap();
    assert!(out.session.is_none());
    assert_eq!(out.content.action, b"receive_greeting".to_vec());
    assert_eq!(
        out.content.data.get_item(String::from("greeting")),
        Some(Value::VecString(vec![
            String::from("NEAR"),
            String::from("hi"),
            String::from("text"),
            String::from("2026-01-01"),
        ]))
    );

    let mut receiver =
        Greeting::new(String::from("owner2.testnet"), String::from("relay2.testnet"));
    receiver
        .register_permitted_contract(
            String::from("chainNear"),
            String::from("0a"),
            String::from("receive_greeting"),
        )
        .unwrap();
    let mut gp = Payload::new();
    gp.push_item(
        String::from("greeting"),
        Value::VecString(vec![
            String::from("chainNear"),
            String::from("hi"),
            String::from("text"),
            String::from("2026-01-01"),
        ]),
    );
    let gctx = inbound_context("chainNear", vec![0x0a], "receive_greeting", 1, None);
    assert_eq!(receiver.receive_greeting(&gp, &gctx), Ok(()));
    let stored = receiver.get_greeting(String::from("chainNear")).unwrap();
    assert_eq!(stored.from_chain, String::from("chainNear"));
    assert_eq!(stored.title, String::from("hi"));
    assert_eq!(stored.content, String::from("text"));
    assert_eq!(stored.date, String::from("2026-01-01"));
    // An unknown origin stays absent.
    assert_eq!(receiver.get_greeting(String::from("chainOther")), None);
}

// A greeting with fewer than four parts is a data error.
#[test]
fn short_greeting_is_codec_mismatch() {
    let mut receiver =
        Greeting::new(String::from("owner.testnet"), String::from("relay.testnet"));
    receiver
        .register_permitted_contract(
            String::from("chainNear"),
            String::from("0a"),
            String::from("receive_greeting"),
        )
        .unwrap();
    let mut gp = Payload::new();
    gp.push_item(
        String::from("greeting"),
        Value::VecString(vec![String::from("chainNear"), String::from("hi")]),
    );
    let gctx = inbound_context("chainNear", vec![0x0a], "receive_greeting", 1, None);
    assert_eq!(
        receiver.receive_greeting(&gp, &gctx),
        Err(CrossChainError::CodecMismatchError)
    );
    assert_eq!(receiver.get_greeting(String::from("chainNear")), None);
}

// Sums overflow nothing: they are accumulated at twice the width.
#[test]
fn large_sums_do_not_overflow() {
    let mut comp = fresh_computation();
    comp.register_permitted_contract(
        String::from("chainA"),
        String::from("0a"),
        String::from("recv_sum"),
    )
    .unwrap();
    let payload = nums_payload(vec![u64::MAX, u64::MAX, 2]);
    let ctx = inbound_context("chainA", vec![0x0a], "recv_sum", 7, Some(b"recv_result".to_vec()));
    let out = comp.receive_compute_task(&payload, &ctx).unwrap().unwrap();
    let expected: u128 = (u64::MAX as u128) * 2 + 2;
    assert_eq!(
        out.content.data.get_item(String::from("result")),
        Some(Value::Uint128(expected))
    );
}
