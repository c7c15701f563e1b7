//! The cross-chain core: it resolves destinations, builds outbound
//! envelopes for the relay collaborator, and gates inbound calls on
//! the permission registry.  The relay itself and the host identity
//! mechanism stay outside; every administrative call takes the acting
//! caller explicitly, and every dispatch is returned as a value for
//! the surrounding program to hand to the relay.
use vstd::prelude::*;

use crate::envelope::Content;
use crate::envelope::OutboundMessage;
use crate::envelope::Session;
use crate::envelope::SessionV;
use crate::envelope::SESSION_TYPE_EXPECT_RESPONSE;
use crate::envelope::SESSION_TYPE_IS_RESPONSE;
use crate::errors::CrossChainError;
use crate::host::hex_bytes;
use crate::host::hex_decode;
use crate::host::valid_hex;
use crate::registry::dst_upsert;
use crate::registry::is_granted;
use crate::registry::DestinationRegistry;
use crate::registry::DstEntryV;
use crate::registry::PermEntryV;
use crate::registry::PermissionRegistry;
use crate::envelope::DstContractV;
use crate::envelope::DstContract;

verus! {

/// The administrative surface a consuming contract forwards to its
/// embedded core: registering destinations and granting permissions.
pub trait RegisterCore {
    /// Grants a remote sender, given as a hexadecimal string, the
    /// right to invoke a local action.
    fn register_permitted_contract(
        &mut self,
        chain_name: String,
        sender: String,
        action_name: String,
    ) -> Result<(), CrossChainError>;

    /// Registers the remote endpoint a local action calls on a remote
    /// chain; only the owner may do so.
    fn register_dst_contract(
        &mut self,
        caller: String,
        chain_name: String,
        action_name: String,
        contract_address: String,
        contract_action_name: String,
    ) -> Result<(), CrossChainError>;
}

/// The dispatch surface a consuming contract forwards to its embedded
/// core: building the envelopes that the surrounding program hands to
/// the relay collaborator.
pub trait CrossChainCore {
    /// A fire-and-forget call to a remote chain.
    fn call_cross(&self, to_chain: String, content: Content) -> OutboundMessage;

    /// A session-tracked call that expects a response through the
    /// named callback action.
    fn call_cross_with_session(
        &self,
        to_chain: String,
        content: Content,
        callback: Vec<u8>,
    ) -> OutboundMessage;

    /// The response that closes the session with the given id.
    fn send_response_message(&self, to_chain: String, content: Content, id: u128)
        -> OutboundMessage;
}

/// The protocol state shared by every consuming contract: the owner,
/// the relay collaborator's account, and the two registries.
#[derive(Debug)]
pub struct CrossChain {
    pub owner_id: String,
    pub cross_chain_contract_id: String,
    pub destination_contract: DestinationRegistry,
    pub permitted_contract: PermissionRegistry,
}

impl CrossChain {
    /// A core with empty registries.
    pub fn new(owner_id: String, cross_chain_contract_id: String) -> (r: Self)
        ensures
            r.owner_id@ == owner_id@,
            r.cross_chain_contract_id@ == cross_chain_contract_id@,
            r.destination_contract@ == Seq::<DstEntryV>::empty(),
            r.permitted_contract@ == Seq::<PermEntryV>::empty(),
    {
        CrossChain {
            owner_id,
            cross_chain_contract_id,
            destination_contract: DestinationRegistry::new(),
            permitted_contract: PermissionRegistry::new(),
        }
    }

    /// Wraps one call to the relay collaborator as a value: the
    /// destination chain, the content, and the session, unchanged.
    pub fn internal_call_cross_chain(
        &self,
        to_chain: String,
        content: Content,
        session: Option<Session>,
    ) -> (r: OutboundMessage)
        ensures
            r@.to_chain == to_chain@,
            r@.content == content@,
            r@.session == match session {
                Option::Some(s) => Option::Some(s@),
                Option::None => Option::None::<SessionV>,
            },
    {
        OutboundMessage { to_chain, content, session }
    }

    /// A fire-and-forget call: no session, so no response is expected
    /// and none can be correlated.
    pub fn call_cross(&self, to_chain: String, content: Content) -> (r: OutboundMessage)
        ensures
            r@.to_chain == to_chain@,
            r@.content == content@,
            r@.session is None,
    {
        self.internal_call_cross_chain(to_chain, content, None)
    }

    /// A session-tracked call: it opens a request/response exchange.
    /// The id is a placeholder; the remote relay assigns the real one,
    /// which the initiator learns through the relay's call result.
    pub fn call_cross_with_session(
        &self,
        to_chain: String,
        content: Content,
        callback: Vec<u8>,
    ) -> (r: OutboundMessage)
        ensures
            r@.to_chain == to_chain@,
            r@.content == content@,
            r@.session == Option::Some(
                SessionV {
                    id: 0,
                    session_type: SESSION_TYPE_EXPECT_RESPONSE,
                    callback: Option::Some(callback@),
                    commitment: Option::None,
                    answer: Option::None,
                },
            ),
    {
        self.internal_call_cross_chain(
            to_chain,
            content,
            Some(
                Session {
                    id: 0,
                    session_type: SESSION_TYPE_EXPECT_RESPONSE,
                    callback: Some(callback),
                    commitment: None,
                    answer: None,
                },
            ),
        )
    }

    /// Answers an earlier request: the envelope carries the id that
    /// request was issued, marked as a response.
    pub fn send_response_message(&self, to_chain: String, content: Content, id: u128) -> (r:
        OutboundMessage)
        ensures
            r@.to_chain == to_chain@,
            r@.content == content@,
            r@.session == Option::Some(
                SessionV {
                    id: id,
                    session_type: SESSION_TYPE_IS_RESPONSE,
                    callback: Option::None,
                    commitment: Option::None,
                    answer: Option::None,
                },
            ),
    {
        self.internal_call_cross_chain(
            to_chain,
            content,
            Some(
                Session {
                    id,
                    session_type: SESSION_TYPE_IS_RESPONSE,
                    callback: None,
                    commitment: None,
                    answer: None,
                },
            ),
        )
    }

    /// Registers the remote endpoint, given as hexadecimal strings,
    /// that `action_name` calls on `chain_name`.  Only the owner may
    /// register; a prior entry for the pair is overwritten without
    /// warning.
    pub fn register_dst_contract(
        &mut self,
        caller: String,
        chain_name: String,
        action_name: String,
        contract_address: String,
        contract_action_name: String,
    ) -> (r: Result<(), CrossChainError>)
        ensures
            r is Ok <==> caller@ == old(self).owner_id@ && valid_hex(contract_address@)
                && valid_hex(contract_action_name@),
            r is Ok ==> final(self).destination_contract@ == dst_upsert(
                old(self).destination_contract@,
                action_name@,
                chain_name@,
                DstContractV {
                    contract_address: hex_bytes(contract_address@),
                    action_name: hex_bytes(contract_action_name@),
                },
            ),
            caller@ != old(self).owner_id@ ==> r == Result::<(), CrossChainError>::Err(
                CrossChainError::AuthorizationError,
            ),
            caller@ == old(self).owner_id@ && !(valid_hex(contract_address@) && valid_hex(
                contract_action_name@,
            )) ==> r == Result::<(), CrossChainError>::Err(CrossChainError::CodecMismatchError),
            r is Err ==> final(self).destination_contract@ == old(self).destination_contract@,
            final(self).owner_id@ == old(self).owner_id@,
            final(self).cross_chain_contract_id@ == old(self).cross_chain_contract_id@,
            final(self).permitted_contract@ == old(self).permitted_contract@,
    {
        if !caller.eq(&self.owner_id) {
            return Err(CrossChainError::AuthorizationError);
        }
        let contract_address_bytes = match hex_decode(&contract_address) {
            Some(b) => b,
            None => {
                return Err(CrossChainError::CodecMismatchError);
            },
        };
        let contract_action_bytes = match hex_decode(&contract_action_name) {
            Some(b) => b,
            None => {
                return Err(CrossChainError::CodecMismatchError);
            },
        };
        self.destination_contract.register(
            action_name,
            chain_name,
            DstContract {
                contract_address: contract_address_bytes,
                action_name: contract_action_bytes,
            },
        );
        Ok(())
    }

    /// Authorizes a remote sender, given as a hexadecimal string, to
    /// invoke `action_name` here; refuses a grant already made, so an
    /// accidental double grant surfaces.
    pub fn register_permitted_contract(
        &mut self,
        chain_name: String,
        sender: String,
        action_name: String,
    ) -> (r: Result<(), CrossChainError>)
        ensures
            r is Ok <==> valid_hex(sender@) && !is_granted(
                old(self).permitted_contract@,
                chain_name@,
                hex_bytes(sender@),
                action_name@,
            ),
            r is Ok ==> final(self).permitted_contract@ == old(self).permitted_contract@.push(
                PermEntryV { chain: chain_name@, sender: hex_bytes(sender@), action: action_name@ },
            ),
            !valid_hex(sender@) ==> r == Result::<(), CrossChainError>::Err(
                CrossChainError::CodecMismatchError,
            ),
            valid_hex(sender@) && is_granted(
                old(self).permitted_contract@,
                chain_name@,
                hex_bytes(sender@),
                action_name@,
            ) ==> r == Result::<(), CrossChainError>::Err(CrossChainError::AlreadyGrantedError),
            r is Err ==> final(self).permitted_contract@ == old(self).permitted_contract@,
            final(self).owner_id@ == old(self).owner_id@,
            final(self).cross_chain_contract_id@ == old(self).cross_chain_contract_id@,
            final(self).destination_contract@ == old(self).destination_contract@,
    {
        let sender_bytes = match hex_decode(&sender) {
            Some(b) => b,
            None => {
                return Err(CrossChainError::CodecMismatchError);
            },
        };
        self.permitted_contract.grant(chain_name, sender_bytes, action_name)
    }

    /// The inbound security gate: succeeds exactly when the sender on
    /// that chain has been granted the action.
    pub fn assert_register_permitted_contract(
        &self,
        chain_name: &String,
        sender: &Vec<u8>,
        action: &String,
    ) -> (r: Result<(), CrossChainError>)
        ensures
            r is Ok <==> is_granted(self.permitted_contract@, chain_name@, sender@, action@),
            r is Err ==> r == Result::<(), CrossChainError>::Err(
                CrossChainError::AuthorizationError,
            ),
    {
        self.permitted_contract.check(chain_name, sender, action)
    }
}

} // verus!
