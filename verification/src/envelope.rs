//! The wire structures exchanged between chains: the resolved
//! invocation target, transport-quality hints, the session record that
//! correlates a request with its response, the full outbound envelope,
//! and the inbound view handed to a receiving contract.
use vstd::prelude::*;

use crate::encoding::be_bytes;
use crate::encoding::lemma_pow256_vals;
use crate::encoding::push_be;
use crate::encoding::push_bytes;
use crate::host::hex_encode;
use crate::host::hex_str;
use crate::host::sha256_digest;
use crate::host::sha256_of;
use crate::payload::payload_bytes;
use crate::payload::MessageItemV;
use crate::payload::Payload;
use crate::value::clone_bytes;
use crate::codec::string_block;

verus! {

/// A session that expects no response: fire-and-forget.
pub const SESSION_TYPE_NONE: u8 = 0;

/// A session that answers an earlier request: it carries the id the
/// remote relay issued for that request.
pub const SESSION_TYPE_IS_RESPONSE: u8 = 1;

/// A session that opens a request/response exchange: its id is
/// assigned by the remote relay, not the sender.
pub const SESSION_TYPE_EXPECT_RESPONSE: u8 = 2;

/// The fully resolved remote invocation target plus its arguments.
#[derive(Debug, PartialEq)]
pub struct Content {
    pub contract: Vec<u8>,
    pub action: Vec<u8>,
    pub data: Payload,
}

/// Mathematical model of a [`Content`].
pub struct ContentV {
    pub contract: Seq<u8>,
    pub action: Seq<u8>,
    pub data: Seq<MessageItemV>,
}

impl View for Content {
    type V = ContentV;

    open spec fn view(&self) -> ContentV {
        ContentV { contract: self.contract@, action: self.action@, data: self.data@ }
    }
}

impl Clone for Content {
    fn clone(&self) -> (r: Self)
        ensures
            r@ == self@,
    {
        Content {
            contract: clone_bytes(&self.contract),
            action: clone_bytes(&self.action),
            data: self.data.clone(),
        }
    }
}

/// A transport-quality hint, opaque to the core and passed through
/// unmodified.
#[derive(Debug)]
pub struct SQoS {
    pub t: u8,
    pub v: Option<Vec<u8>>,
}

/// The view of an optional byte string.
pub open spec fn opt_bytes_view(o: Option<Vec<u8>>) -> Option<Seq<u8>> {
    match o {
        Option::Some(v) => Option::Some(v@),
        Option::None => Option::None,
    }
}

/// Mathematical model of an [`SQoS`].
pub struct SQoSV {
    pub t: u8,
    pub v: Option<Seq<u8>>,
}

impl View for SQoS {
    type V = SQoSV;

    open spec fn view(&self) -> SQoSV {
        SQoSV { t: self.t, v: opt_bytes_view(self.v) }
    }
}

/// Copies an optional byte string.
pub(crate) fn clone_opt_bytes(o: &Option<Vec<u8>>) -> (r: Option<Vec<u8>>)
    ensures
        opt_bytes_view(r) == opt_bytes_view(*o),
{
    match o {
        Some(v) => Some(clone_bytes(v)),
        None => None,
    }
}

impl Clone for SQoS {
    fn clone(&self) -> (r: Self)
        ensures
            r@ == self@,
    {
        SQoS { t: self.t, v: clone_opt_bytes(&self.v) }
    }
}

/// The correlation record linking an outbound request to its eventual
/// inbound response.
#[derive(Debug, PartialEq)]
pub struct Session {
    pub id: u128,
    pub session_type: u8,
    pub callback: Option<Vec<u8>>,
    pub commitment: Option<Vec<u8>>,
    pub answer: Option<Vec<u8>>,
}

/// Mathematical model of a [`Session`].
pub struct SessionV {
    pub id: u128,
    pub session_type: u8,
    pub callback: Option<Seq<u8>>,
    pub commitment: Option<Seq<u8>>,
    pub answer: Option<Seq<u8>>,
}

impl View for Session {
    type V = SessionV;

    open spec fn view(&self) -> SessionV {
        SessionV {
            id: self.id,
            session_type: self.session_type,
            callback: opt_bytes_view(self.callback),
            commitment: opt_bytes_view(self.commitment),
            answer: opt_bytes_view(self.answer),
        }
    }
}

impl Clone for Session {
    fn clone(&self) -> (r: Self)
        ensures
            r@ == self@,
    {
        Session {
            id: self.id,
            session_type: self.session_type,
            callback: clone_opt_bytes(&self.callback),
            commitment: clone_opt_bytes(&self.commitment),
            answer: clone_opt_bytes(&self.answer),
        }
    }
}

/// The full envelope carried between chains.
#[derive(Debug)]
pub struct Message {
    pub from_chain: String,
    pub to_chain: String,
    pub sender: Vec<u8>,
    pub signer: Vec<u8>,
    pub sqos: Vec<SQoS>,
    pub content: Content,
    pub session: Session,
}

/// Mathematical model of a [`Message`].
pub struct MessageV {
    pub from_chain: Seq<char>,
    pub to_chain: Seq<char>,
    pub sender: Seq<u8>,
    pub signer: Seq<u8>,
    pub sqos: Seq<SQoSV>,
    pub content: ContentV,
    pub session: SessionV,
}

/// The views of a sequence of transport-quality hints.
pub open spec fn sqos_views(qs: Seq<SQoS>) -> Seq<SQoSV> {
    qs.map_values(|q: SQoS| q@)
}

impl View for Message {
    type V = MessageV;

    open spec fn view(&self) -> MessageV {
        MessageV {
            from_chain: self.from_chain@,
            to_chain: self.to_chain@,
            sender: self.sender@,
            signer: self.signer@,
            sqos: sqos_views(self.sqos@),
            content: self.content@,
            session: self.session@,
        }
    }
}

/// The inbound projection of a message delivered to the receiving
/// contract.  `id` is the session id the receiver must use to reply.
#[derive(Debug)]
pub struct Context {
    pub id: u128,
    pub from_chain: String,
    pub sender: Vec<u8>,
    pub signer: Vec<u8>,
    pub contract_id: String,
    pub action: String,
    pub sqos: Vec<SQoS>,
    pub session: Session,
}

/// Mathematical model of a [`Context`].
pub struct ContextV {
    pub id: u128,
    pub from_chain: Seq<char>,
    pub sender: Seq<u8>,
    pub signer: Seq<u8>,
    pub contract_id: Seq<char>,
    pub action: Seq<char>,
    pub sqos: Seq<SQoSV>,
    pub session: SessionV,
}

impl View for Context {
    type V = ContextV;

    open spec fn view(&self) -> ContextV {
        ContextV {
            id: self.id,
            from_chain: self.from_chain@,
            sender: self.sender@,
            signer: self.signer@,
            contract_id: self.contract_id@,
            action: self.action@,
            sqos: sqos_views(self.sqos@),
            session: self.session@,
        }
    }
}

/// One remote endpoint: a contract address and an action name on it.
#[derive(Debug, PartialEq)]
pub struct DstContract {
    pub contract_address: Vec<u8>,
    pub action_name: Vec<u8>,
}

/// Mathematical model of a [`DstContract`].
pub struct DstContractV {
    pub contract_address: Seq<u8>,
    pub action_name: Seq<u8>,
}

impl View for DstContract {
    type V = DstContractV;

    open spec fn view(&self) -> DstContractV {
        DstContractV { contract_address: self.contract_address@, action_name: self.action_name@ }
    }
}

impl Clone for DstContract {
    fn clone(&self) -> (r: Self)
        ensures
            r@ == self@,
    {
        DstContract {
            contract_address: clone_bytes(&self.contract_address),
            action_name: clone_bytes(&self.action_name),
        }
    }
}

/// One dispatch request handed to the relay collaborator: the
/// destination chain, the resolved content, and the session record, if
/// the call opens or answers an exchange.
#[derive(Debug, PartialEq)]
pub struct OutboundMessage {
    pub to_chain: String,
    pub content: Content,
    pub session: Option<Session>,
}

/// Mathematical model of an [`OutboundMessage`].
pub struct OutboundMessageV {
    pub to_chain: Seq<char>,
    pub content: ContentV,
    pub session: Option<SessionV>,
}

impl View for OutboundMessage {
    type V = OutboundMessageV;

    open spec fn view(&self) -> OutboundMessageV {
        OutboundMessageV {
            to_chain: self.to_chain@,
            content: self.content@,
            session: match self.session {
                Option::Some(s) => Option::Some(s@),
                Option::None => Option::None,
            },
        }
    }
}

/// A length-prefixed byte string inside the canonical message form.
pub open spec fn bytes_block(b: Seq<u8>) -> Seq<u8> {
    be_bytes(b.len(), 8) + b
}

/// An optional byte string: one presence byte, then the block if any.
pub open spec fn opt_bytes_block(o: Option<Seq<u8>>) -> Seq<u8> {
    match o {
        Option::Some(b) => seq![1u8] + bytes_block(b),
        Option::None => seq![0u8],
    }
}

/// The canonical bytes of one transport-quality hint.
pub open spec fn sqos_block(q: SQoSV) -> Seq<u8> {
    seq![q.t] + opt_bytes_block(q.v)
}

/// Concatenated canonical transport-quality hints.
pub open spec fn concat_sqos(qs: Seq<SQoSV>) -> Seq<u8>
    decreases qs.len(),
{
    if qs.len() == 0 {
        Seq::empty()
    } else {
        concat_sqos(qs.drop_last()) + sqos_block(qs.last())
    }
}

/// The canonical bytes of a session record.
pub open spec fn session_block(s: SessionV) -> Seq<u8> {
    be_bytes(s.id as nat, 16) + seq![s.session_type] + opt_bytes_block(s.callback)
        + opt_bytes_block(s.commitment) + opt_bytes_block(s.answer)
}

/// The canonical bytes of a resolved invocation target.
pub open spec fn content_block(c: ContentV) -> Seq<u8> {
    bytes_block(c.contract) + bytes_block(c.action) + payload_bytes(c.data)
}

/// The canonical byte serialization of a whole message, hashed for its
/// derived identity.
pub open spec fn message_bytes(m: MessageV) -> Seq<u8> {
    string_block(m.from_chain) + string_block(m.to_chain) + bytes_block(m.sender) + bytes_block(
        m.signer,
    ) + be_bytes(m.sqos.len(), 8) + concat_sqos(m.sqos) + content_block(m.content)
        + session_block(m.session)
}

/// Unrolls one step of [`concat_sqos`] over a prefix.
pub proof fn lemma_concat_sqos_take(qs: Seq<SQoSV>, i: int)
    requires
        0 <= i < qs.len(),
    ensures
        concat_sqos(qs.take(i + 1)) == concat_sqos(qs.take(i)) + sqos_block(qs[i]),
{
    assert(qs.take(i + 1).drop_last() =~= qs.take(i));
}

/// Appends one length-prefixed byte string to `out`.
pub(crate) fn push_bytes_block(out: &mut Vec<u8>, b: &Vec<u8>)
    ensures
        final(out)@ == old(out)@ + bytes_block(b@),
{
    proof {
        lemma_pow256_vals();
    }
    push_be(out, b.len() as u128, 8);
    push_bytes(out, b.as_slice());
    assert(final(out)@ =~= old(out)@ + bytes_block(b@));
}

/// Appends one optional byte string to `out`.
pub(crate) fn push_opt_bytes_block(out: &mut Vec<u8>, o: &Option<Vec<u8>>)
    ensures
        final(out)@ == old(out)@ + opt_bytes_block(opt_bytes_view(*o)),
{
    match o {
        Some(b) => {
            out.push(1u8);
            push_bytes_block(out, b);
        },
        None => {
            out.push(0u8);
        },
    }
    assert(final(out)@ =~= old(out)@ + opt_bytes_block(opt_bytes_view(*o)));
}

impl Message {
    /// The canonical byte serialization that the message's derived
    /// identity hashes.
    pub fn canonical_bytes(&self) -> (r: Vec<u8>)
        ensures
            r@ == message_bytes(self@),
    {
        proof {
            lemma_pow256_vals();
        }
        let mut out: Vec<u8> = Vec::new();
        crate::codec::push_str_block(&mut out, self.from_chain.as_str());
        crate::codec::push_str_block(&mut out, self.to_chain.as_str());
        push_bytes_block(&mut out, &self.sender);
        push_bytes_block(&mut out, &self.signer);
        push_be(&mut out, self.sqos.len() as u128, 8);
        let ghost qs = sqos_views(self.sqos@);
        let ghost head = out@;
        let mut i: usize = 0;
        while i < self.sqos.len()
            invariant
                i <= self.sqos@.len(),
                qs == sqos_views(self.sqos@),
                qs.len() == self.sqos@.len(),
                out@ == head + concat_sqos(qs.take(i as int)),
            decreases self.sqos@.len() - i,
        {
            proof {
                lemma_concat_sqos_take(qs, i as int);
                assert(qs[i as int] == self.sqos@[i as int]@);
            }
            let q = &self.sqos[i];
            out.push(q.t);
            push_opt_bytes_block(&mut out, &q.v);
            assert(out@ =~= head + concat_sqos(qs.take(i + 1)));
            i = i + 1;
        }
        proof {
            assert(qs.take(qs.len() as int) =~= qs);
        }
        push_bytes_block(&mut out, &self.content.contract);
        push_bytes_block(&mut out, &self.content.action);
        let pb = self.content.data.to_bytes();
        push_bytes(&mut out, pb.as_slice());
        push_be(&mut out, self.session.id, 16);
        out.push(self.session.session_type);
        push_opt_bytes_block(&mut out, &self.session.callback);
        push_opt_bytes_block(&mut out, &self.session.commitment);
        push_opt_bytes_block(&mut out, &self.session.answer);
        assert(out@ =~= message_bytes(self@));
        out
    }

    /// The message's derived identity: the lowercase hexadecimal
    /// rendering of the SHA-256 digest of its canonical bytes.  It is
    /// used for content-addressing and auditing, not for correlation.
    pub fn to_hash(&self) -> (r: String)
        ensures
            r@ == hex_str(sha256_of(message_bytes(self@))),
    {
        let bytes = self.canonical_bytes();
        let digest = sha256_digest(&bytes);
        hex_encode(&digest)
    }
}

} // verus!
