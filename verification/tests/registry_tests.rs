use protocol_sdk::cross_chain::CrossChain;
use protocol_sdk::errors::CrossChainError;

fn fresh_core() -> CrossChain {
    CrossChain::new(String::from("owner.testnet"), String::from("relay.testnet"))
}

#[test]
fn register_then_resolve_returns_registered_endpoint() {
    let mut core = fresh_core();
    let r = core.register_dst_contract(
        String::from("owner.testnet"),
        String::from("chainB"),
        String::from("sum"),
        String::from("0b"),
        String::from("726563765f73756d"),
    );
    assert_eq!(r, Ok(()));
    let d = core.destination_contract.resolve(&String::from("sum"), &String::from("chainB"));
    let d = d.unwrap();
    assert_eq!(d.contract_address, vec![0x0bu8]);
    assert_eq!(d.action_name, b"recv_sum".to_vec());
}

#[test]
fn register_overwrites_prior_entry_for_same_pair() {
    let mut core = fresh_core();
    let owner = String::from("owner.testnet");
    core.register_dst_contract(
        owner.clone(),
        String::from("chainB"),
        String::from("sum"),
        String::from("0b"),
        String::from("0a"),
    )
    .unwrap();
    core.register_dst_contract(
        owner,
        String::from("chainB"),
        String::from("sum"),
        String::from("0c"),
        String::from("0d"),
    )
    .unwrap();
    let d = core
        .destination_contract
        .resolve(&String::from("sum"), &String::from("chainB"))
        .unwrap();
    assert_eq!(d.contract_address, vec![0x0cu8]);
    assert_eq!(d.action_name, vec![0x0du8]);
}

#[test]
fn resolve_unregistered_pair_is_not_registered_error() {
    let mut core = fresh_core();
    core.register_dst_contract(
        String::from("owner.testnet"),
        String::from("chainB"),
        String::from("sum"),
        String::from("0b"),
        String::from("0a"),
    )
    .unwrap();
    // Wrong chain for a known action, and a wholly unknown action.
    let r1 = core.destination_contract.resolve(&String::from("sum"), &String::from("chainC"));
    assert_eq!(r1, Err(CrossChainError::NotRegisteredError));
    let r2 = core.destination_contract.resolve(&String::from("greet"), &String::from("chainB"));
    assert_eq!(r2, Err(CrossChainError::NotRegisteredError));
}

#[test]
fn register_by_non_owner_is_authorization_error() {
    let mut core = fresh_core();
    let r = core.register_dst_contract(
        String::from("intruder.testnet"),
        String::from("chainB"),
        String::from("sum"),
        String::from("0b"),
        String::from("0a"),
    );
    assert_eq!(r, Err(CrossChainError::AuthorizationError));
    let lookup = core.destination_contract.resolve(&String::from("sum"), &String::from("chainB"));
    assert_eq!(lookup, Err(CrossChainError::NotRegisteredError));
}

#[test]
fn register_with_invalid_hex_is_codec_mismatch() {
    let mut core = fresh_core();
    let r = core.register_dst_contract(
        String::from("owner.testnet"),
        String::from("chainB"),
        String::from("sum"),
        String::from("zz"),
        String::from("0a"),
    );
    assert_eq!(r, Err(CrossChainError::CodecMismatchError));
    let odd = core.register_dst_contract(
        String::from("owner.testnet"),
        String::from("chainB"),
        String::from("sum"),
        String::from("0b0"),
        String::from("0a"),
    );
    assert_eq!(odd, Err(CrossChainError::CodecMismatchError));
}

#[test]
fn hex_accepts_both_cases() {
    let mut core = fresh_core();
    core.register_dst_contract(
        String::from("owner.testnet"),
        String::from("chainB"),
        String::from("sum"),
        String::from("0aFf"),
        String::from("AB"),
    )
    .unwrap();
    let d = core
        .destination_contract
        .resolve(&String::from("sum"), &String::from("chainB"))
        .unwrap();
    assert_eq!(d.contract_address, vec![0x0au8, 0xff]);
    assert_eq!(d.action_name, vec![0xabu8]);
}

#[test]
fn grant_then_check_succeeds() {
    let mut core = fresh_core();
    let r = core.register_permitted_contract(
        String::from("chainA"),
        String::from("0a"),
        String::from("recv_sum"),
    );
    assert_eq!(r, Ok(()));
    let c = core.assert_register_permitted_contract(
        &String::from("chainA"),
        &vec![0x0au8],
        &String::from("recv_sum"),
    );
    assert_eq!(c, Ok(()));
}

#[test]
fn check_ungranted_triple_is_authorization_error() {
    let mut core = fresh_core();
    core.register_permitted_contract(
        String::from("chainA"),
        String::from("0a"),
        String::from("recv_sum"),
    )
    .unwrap();
    // Same chain, different sender.
    let wrong_sender = core.assert_register_permitted_contract(
        &String::from("chainA"),
        &vec![0x0bu8],
        &String::from("recv_sum"),
    );
    assert_eq!(wrong_sender, Err(CrossChainError::AuthorizationError));
    // Same sender, different action.
    let wrong_action = core.assert_register_permitted_contract(
        &String::from("chainA"),
        &vec![0x0au8],
        &String::from("other"),
    );
    assert_eq!(wrong_action, Err(CrossChainError::AuthorizationError));
    // Different chain entirely.
    let wrong_chain = core.assert_register_permitted_contract(
        &String::from("chainB"),
        &vec![0x0au8],
        &String::from("recv_sum"),
    );
    assert_eq!(wrong_chain, Err(CrossChainError::AuthorizationError));
}

#[test]
fn granting_same_triple_twice_fails_on_second() {
    let mut core = fresh_core();
    let first = core.register_permitted_contract(
        String::from("chainA"),
        String::from("0a"),
        String::from("recv_sum"),
    );
    assert_eq!(first, Ok(()));
    let second = core.register_permitted_contract(
        String::from("chainA"),
        String::from("0a"),
        String::from("recv_sum"),
    );
    assert_eq!(second, Err(CrossChainError::AlreadyGrantedError));
    // The first grant still stands.
    let c = core.assert_register_permitted_contract(
        &String::from("chainA"),
        &vec![0x0au8],
        &String::from("recv_sum"),
    );
    assert_eq!(c, Ok(()));
}

#[test]
fn grant_with_invalid_hex_sender_is_codec_mismatch() {
    let mut core = fresh_core();
    let r = core.register_permitted_contract(
        String::from("chainA"),
        String::from("xyz"),
        String::from("recv_sum"),
    );
    assert_eq!(r, Err(CrossChainError::CodecMismatchError));
}
