//! A consuming contract that exchanges greetings: it sends a greeting
//! to a registered remote endpoint fire-and-forget, and stores inbound
//! greetings behind the permission gate, keyed by their origin chain.
use vstd::prelude::*;
use vstd::string::StringExecFns;

use crate::cross_chain::CrossChain;
use crate::cross_chain::RegisterCore;
use crate::envelope::Content;
use crate::envelope::Context;
use crate::envelope::OutboundMessage;
use crate::errors::CrossChainError;
use crate::payload::find_item;
use crate::payload::MessageItemV;
use crate::payload::Payload;
use crate::registry::dst_lookup;
use crate::registry::is_granted;
use crate::value::Value;
use crate::value::ValueV;

verus! {

/// One stored greeting: who sent it, and what it said.
#[derive(Debug, PartialEq)]
pub struct GreetingData {
    pub from_chain: String,
    pub title: String,
    pub content: String,
    pub date: String,
}

/// Mathematical model of a [`GreetingData`].
pub struct GreetingDataV {
    pub from_chain: Seq<char>,
    pub title: Seq<char>,
    pub content: Seq<char>,
    pub date: Seq<char>,
}

impl View for GreetingData {
    type V = GreetingDataV;

    open spec fn view(&self) -> GreetingDataV {
        GreetingDataV {
            from_chain: self.from_chain@,
            title: self.title@,
            content: self.content@,
            date: self.date@,
        }
    }
}

impl Clone for GreetingData {
    fn clone(&self) -> (r: Self)
        ensures
            r@ == self@,
    {
        GreetingData {
            from_chain: self.from_chain.clone(),
            title: self.title.clone(),
            content: self.content.clone(),
            date: self.date.clone(),
        }
    }
}

/// One stored greeting under its origin-chain key.
#[derive(Debug)]
pub struct GreetingEntry {
    pub key: String,
    pub data: GreetingData,
}

/// Mathematical model of a [`GreetingEntry`].
pub struct GreetingEntryV {
    pub key: Seq<char>,
    pub data: GreetingDataV,
}

impl View for GreetingEntry {
    type V = GreetingEntryV;

    open spec fn view(&self) -> GreetingEntryV {
        GreetingEntryV { key: self.key@, data: self.data@ }
    }
}

impl DeepView for GreetingEntry {
    type V = GreetingEntryV;

    open spec fn deep_view(&self) -> GreetingEntryV {
        self.view()
    }
}

/// The greeting stored under the key, if any.
pub open spec fn greeting_lookup(s: Seq<GreetingEntryV>, key: Seq<char>) -> Option<GreetingDataV>
    decreases s.len(),
{
    if s.len() == 0 {
        Option::None
    } else if s[0].key == key {
        Option::Some(s[0].data)
    } else {
        greeting_lookup(s.drop_first(), key)
    }
}

/// The store after writing `d` under the key, overwriting any prior
/// greeting from the same chain.
pub open spec fn greeting_upsert(
    s: Seq<GreetingEntryV>,
    key: Seq<char>,
    d: GreetingDataV,
) -> Seq<GreetingEntryV>
    decreases s.len(),
{
    if s.len() == 0 {
        seq![GreetingEntryV { key, data: d }]
    } else if s[0].key == key {
        seq![GreetingEntryV { key, data: d }] + s.drop_first()
    } else {
        seq![s[0]] + greeting_upsert(s.drop_first(), key, d)
    }
}

/// Helper: an upsert that found its key at position `i` is an update
/// in place.
proof fn lemma_greeting_upsert_at(s: Seq<GreetingEntryV>, i: int, key: Seq<char>, d: GreetingDataV)
    requires
        0 <= i < s.len(),
        forall|j: int| 0 <= j < i ==> (#[trigger] s[j]).key != key,
        s[i].key == key,
    ensures
        greeting_upsert(s, key, d) == s.update(i, GreetingEntryV { key, data: d }),
    decreases i,
{
    if i == 0 {
        assert(greeting_upsert(s, key, d) =~= s.update(0, GreetingEntryV { key, data: d }));
    } else {
        assert(s.drop_first()[i - 1] == s[i]);
        assert forall|j: int| 0 <= j < i - 1 implies (#[trigger] s.drop_first()[j]).key != key by {
            assert(s.drop_first()[j] == s[j + 1]);
        }
        lemma_greeting_upsert_at(s.drop_first(), i - 1, key, d);
        assert(greeting_upsert(s, key, d) =~= s.update(i, GreetingEntryV { key, data: d }));
    }
}

/// Helper: an upsert that found no matching key appends its entry.
proof fn lemma_greeting_upsert_append(s: Seq<GreetingEntryV>, key: Seq<char>, d: GreetingDataV)
    requires
        forall|j: int| 0 <= j < s.len() ==> (#[trigger] s[j]).key != key,
    ensures
        greeting_upsert(s, key, d) == s.push(GreetingEntryV { key, data: d }),
    decreases s.len(),
{
    if s.len() == 0 {
        assert(greeting_upsert(s, key, d) =~= s.push(GreetingEntryV { key, data: d }));
    } else {
        assert forall|j: int| 0 <= j < s.drop_first().len() implies (#[trigger] s.drop_first()[j]).key
            != key by {
            assert(s.drop_first()[j] == s[j + 1]);
        }
        lemma_greeting_upsert_append(s.drop_first(), key, d);
        assert(greeting_upsert(s, key, d) =~= s.push(GreetingEntryV { key, data: d }));
    }
}

/// The strings carried under the name `greeting`, when the payload
/// holds them with the expected type.
pub open spec fn greeting_of(items: Seq<MessageItemV>) -> Option<Seq<Seq<char>>> {
    match find_item(items, "greeting"@) {
        Option::Some(ValueV::VecString(g)) => Option::Some(g),
        _ => Option::None,
    }
}

/// The consuming contract's state: the embedded cross-chain core and
/// the greetings received so far.
#[derive(Debug)]
pub struct Greeting {
    pub cross: CrossChain,
    greeting_data: Vec<GreetingEntry>,
}

impl Greeting {
    /// The stored greetings, keyed by origin chain.
    pub closed spec fn greetings(&self) -> Seq<GreetingEntryV> {
        self.greeting_data.deep_view()
    }

    /// The embedded cross-chain core, for contracts about it.
    pub closed spec fn chain_core(&self) -> CrossChain {
        self.cross
    }

    /// A contract with empty registries and no stored greeting.
    pub fn new(owner_id: String, cross_chain_contract_id: String) -> (r: Self)
        ensures
            r.chain_core().owner_id@ == owner_id@,
            r.chain_core().cross_chain_contract_id@ == cross_chain_contract_id@,
            r.chain_core().destination_contract@ == Seq::<crate::registry::DstEntryV>::empty(),
            r.chain_core().permitted_contract@ == Seq::<crate::registry::PermEntryV>::empty(),
            r.greetings() == Seq::<GreetingEntryV>::empty(),
    {
        let r = Greeting {
            cross: CrossChain::new(owner_id, cross_chain_contract_id),
            greeting_data: Vec::new(),
        };
        proof {
            assert(r.greetings() =~= Seq::<GreetingEntryV>::empty());
        }
        r
    }

    /// Builds the fire-and-forget dispatch that carries a greeting to
    /// the endpoint registered for `to_chain`; fails exactly when no
    /// destination is registered for the pair.
    pub fn send_greeting(
        &self,
        to_chain: String,
        title: String,
        content: String,
        date: String,
    ) -> (r: Result<OutboundMessage, CrossChainError>)
        ensures
            r is Ok <==> dst_lookup(
                self.chain_core().destination_contract@,
                "send_greeting"@,
                to_chain@,
            ) is Some,
            r is Err ==> r == Result::<OutboundMessage, CrossChainError>::Err(
                CrossChainError::NotRegisteredError,
            ),
            match r {
                Result::Ok(m) => {
                    let d = dst_lookup(
                        self.chain_core().destination_contract@,
                        "send_greeting"@,
                        to_chain@,
                    )->Some_0;
                    &&& m@.to_chain == to_chain@
                    &&& m@.content.contract == d.contract_address
                    &&& m@.content.action == d.action_name
                    &&& m@.content.data == seq![
                        MessageItemV {
                            name: "greeting"@,
                            value: ValueV::VecString(seq!["NEAR"@, title@, content@, date@]),
                        },
                    ]
                    &&& m@.session is None
                },
                Result::Err(e) => true,
            },
    {
        let action_name = String::from_str("send_greeting");
        let contract = match self.cross.destination_contract.resolve(&action_name, &to_chain) {
            Ok(d) => d,
            Err(e) => {
                return Err(CrossChainError::NotRegisteredError);
            },
        };
        let mut greeting: Vec<String> = Vec::new();
        greeting.push(String::from_str("NEAR"));
        greeting.push(title);
        greeting.push(content);
        greeting.push(date);
        let ghost gv = greeting.deep_view();
        proof {
            assert(gv =~= seq!["NEAR"@, title@, content@, date@]);
        }
        let mut data = Payload::new();
        proof {
            assert(!crate::payload::contains_name(Seq::<MessageItemV>::empty(), "greeting"@));
        }
        data.push_item(String::from_str("greeting"), Value::VecString(greeting));
        proof {
            assert(data@ =~= seq![
                MessageItemV { name: "greeting"@, value: ValueV::VecString(gv) },
            ]);
        }
        let out_content = Content {
            contract: contract.contract_address,
            action: contract.action_name,
            data,
        };
        Ok(self.cross.call_cross(to_chain, out_content))
    }

    /// Stores one inbound greeting.  The permission gate runs first;
    /// the greeting must carry at least origin chain, title, content
    /// and date, and it is stored under its origin chain, overwriting
    /// an earlier greeting from the same chain.
    pub fn receive_greeting(&mut self, payload: &Payload, context: &Context) -> (r: Result<
        (),
        CrossChainError,
    >)
        ensures
            r == Result::<(), CrossChainError>::Err(CrossChainError::AuthorizationError) <==> !is_granted(
                old(self).chain_core().permitted_contract@,
                context@.from_chain,
                context@.sender,
                context@.action,
            ),
            is_granted(
                old(self).chain_core().permitted_contract@,
                context@.from_chain,
                context@.sender,
                context@.action,
            ) ==> match greeting_of(payload@) {
                Option::None => r == Result::<(), CrossChainError>::Err(
                    CrossChainError::CodecMismatchError,
                ),
                Option::Some(g) => if g.len() < 4 {
                    r == Result::<(), CrossChainError>::Err(CrossChainError::CodecMismatchError)
                } else {
                    r is Ok && final(self).greetings() == greeting_upsert(
                        old(self).greetings(),
                        g[0],
                        GreetingDataV { from_chain: g[0], title: g[1], content: g[2], date: g[3] },
                    )
                },
            },
            r is Err ==> final(self).greetings() == old(self).greetings(),
            final(self).chain_core() == old(self).chain_core(),
    {
        match self.cross.assert_register_permitted_contract(
            &context.from_chain,
            &context.sender,
            &context.action,
        ) {
            Ok(u) => {},
            Err(e) => {
                return Err(CrossChainError::AuthorizationError);
            },
        }
        let greeting_value = match payload.get_item(String::from_str("greeting")) {
            Some(v) => v,
            None => {
                return Err(CrossChainError::CodecMismatchError);
            },
        };
        let greeting = match greeting_value.get_value::<Vec<String>>() {
            Some(g) => g,
            None => {
                return Err(CrossChainError::CodecMismatchError);
            },
        };
        proof {
            assert(greeting_of(payload@) == Option::Some(greeting.deep_view()));
        }
        if greeting.len() < 4 {
            return Err(CrossChainError::CodecMismatchError);
        }
        let data = GreetingData {
            from_chain: greeting[0].clone(),
            title: greeting[1].clone(),
            content: greeting[2].clone(),
            date: greeting[3].clone(),
        };
        let key = greeting[0].clone();
        let ghost key_v = key@;
        let ghost data_v = data@;
        let mut found: bool = false;
        let mut idx: usize = 0;
        let mut i: usize = 0;
        while i < self.greeting_data.len()
            invariant
                i <= self.greeting_data@.len(),
                self == old(self),
                key_v == key@,
                !found ==> forall|j: int|
                    0 <= j < i ==> (#[trigger] self.greetings()[j]).key != key_v,
                found ==> idx < i && self.greetings()[idx as int].key == key_v && (forall|j: int|
                    0 <= j < idx ==> (#[trigger] self.greetings()[j]).key != key_v),
            decreases self.greeting_data@.len() - i,
        {
            if !found && self.greeting_data[i].key.eq(&key) {
                found = true;
                idx = i;
            }
            i = i + 1;
        }
        let ghost before = self.greetings();
        let ghost before_entries = self.greeting_data@;
        let new_entry = GreetingEntry { key, data };
        proof {
            assert(new_entry@ == (GreetingEntryV { key: key_v, data: data_v }));
        }
        if found {
            proof {
                lemma_greeting_upsert_at(before, idx as int, key_v, data_v);
            }
            self.greeting_data.remove(idx);
            self.greeting_data.insert(idx, new_entry);
            proof {
                let after = final(self).greeting_data@;
                assert(after =~= before_entries.update(idx as int, after[idx as int]));
                assert(final(self).greetings() =~= before.update(
                    idx as int,
                    GreetingEntryV { key: key_v, data: data_v },
                ));
            }
        } else {
            proof {
                lemma_greeting_upsert_append(before, key_v, data_v);
            }
            self.greeting_data.push(new_entry);
            proof {
                assert(final(self).greetings() =~= before.push(
                    GreetingEntryV { key: key_v, data: data_v },
                ));
            }
        }
        Ok(())
    }

    /// The greeting stored for the origin chain, if any.
    pub fn get_greeting(&self, from_chain: String) -> (r: Option<GreetingData>)
        ensures
            match r {
                Option::Some(d) => greeting_lookup(self.greetings(), from_chain@) == Option::Some(
                    d@,
                ),
                Option::None => greeting_lookup(self.greetings(), from_chain@) is None,
            },
    {
        proof {
            assert(self.greetings().skip(0) =~= self.greetings());
        }
        let mut i: usize = 0;
        while i < self.greeting_data.len()
            invariant
                i <= self.greeting_data@.len(),
                greeting_lookup(self.greetings(), from_chain@) == greeting_lookup(
                    self.greetings().skip(i as int),
                    from_chain@,
                ),
            decreases self.greeting_data@.len() - i,
        {
            proof {
                assert(self.greetings().skip(i as int)[0] == self.greetings()[i as int]);
                assert(self.greetings().skip(i as int).drop_first() =~= self.greetings().skip(
                    i + 1,
                ));
            }
            if self.greeting_data[i].key.eq(&from_chain) {
                return Some(self.greeting_data[i].data.clone());
            }
            i = i + 1;
        }
        proof {
            assert(self.greetings().skip(self.greetings().len() as int) =~= Seq::<
                GreetingEntryV,
            >::empty());
        }
        None
    }
}

impl crate::cross_chain::CrossChainCore for Greeting {
    fn call_cross(&self, to_chain: String, content: Content) -> OutboundMessage {
        self.cross.call_cross(to_chain, content)
    }

    fn call_cross_with_session(
        &self,
        to_chain: String,
        content: Content,
        callback: Vec<u8>,
    ) -> OutboundMessage {
        self.cross.call_cross_with_session(to_chain, content, callback)
    }

    fn send_response_message(
        &self,
        to_chain: String,
        content: Content,
        id: u128,
    ) -> OutboundMessage {
        self.cross.send_response_message(to_chain, content, id)
    }
}

impl RegisterCore for Greeting {
    fn register_permitted_contract(
        &mut self,
        chain_name: String,
        sender: String,
        action_name: String,
    ) -> Result<(), CrossChainError> {
        self.cross.register_permitted_contract(chain_name, sender, action_name)
    }

    fn register_dst_contract(
        &mut self,
        caller: String,
        chain_name: String,
        action_name: String,
        contract_address: String,
        contract_action_name: String,
    ) -> Result<(), CrossChainError> {
        self.cross.register_dst_contract(
            caller,
            chain_name,
            action_name,
            contract_address,
            contract_action_name,
        )
    }
}

} // verus!
