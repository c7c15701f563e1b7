//! A consuming contract that farms a sum out to another chain: it
//! dispatches session-tracked compute tasks, records each pending
//! exchange under its `(remote chain, session id)` key, serves inbound
//! tasks behind the permission gate, and resolves pending records when
//! the response arrives.
use vstd::prelude::*;
use vstd::string::StringExecFns;
use vstd::utf8::encode_utf8;

use crate::cross_chain::CrossChain;
use crate::cross_chain::RegisterCore;
use crate::envelope::Content;
use crate::envelope::Context;
use crate::envelope::DstContract;
use crate::envelope::OutboundMessage;
use crate::envelope::SessionV;
use crate::envelope::SESSION_TYPE_IS_RESPONSE;
use crate::errors::CrossChainError;
use crate::payload::find_item;
use crate::payload::MessageItemV;
use crate::payload::Payload;
use crate::registry::dst_lookup;
use crate::registry::is_granted;
use crate::value::clone_bytes;
use crate::value::Value;
use crate::value::ValueV;

verus! {

/// One compute exchange: the numbers sent out, and the sum that came
/// back once the response arrived.
#[derive(Debug, PartialEq)]
pub struct ComputeTask {
    pub nums: Vec<u64>,
    pub result: Option<u128>,
}

/// Mathematical model of a [`ComputeTask`].
pub struct ComputeTaskV {
    pub nums: Seq<u64>,
    pub result: Option<u128>,
}

impl View for ComputeTask {
    type V = ComputeTaskV;

    open spec fn view(&self) -> ComputeTaskV {
        ComputeTaskV { nums: self.nums@, result: self.result }
    }
}

impl Clone for ComputeTask {
    fn clone(&self) -> (r: Self)
        ensures
            r@ == self@,
    {
        ComputeTask { nums: vstd::slice::slice_to_vec(self.nums.as_slice()), result: self.result }
    }
}

/// One pending record: the exchange keyed `(remote chain, session id)`.
#[derive(Debug)]
pub struct PendingEntry {
    pub chain: String,
    pub id: u128,
    pub task: ComputeTask,
}

/// Mathematical model of a [`PendingEntry`].
pub struct PendingEntryV {
    pub chain: Seq<char>,
    pub id: u128,
    pub task: ComputeTaskV,
}

impl View for PendingEntry {
    type V = PendingEntryV;

    open spec fn view(&self) -> PendingEntryV {
        PendingEntryV { chain: self.chain@, id: self.id, task: self.task@ }
    }
}

impl DeepView for PendingEntry {
    type V = PendingEntryV;

    open spec fn deep_view(&self) -> PendingEntryV {
        self.view()
    }
}

/// The pending record stored under the key, if any: the first matching
/// record wins, and upserts keep at most one record per key.
pub open spec fn pending_lookup(s: Seq<PendingEntryV>, chain: Seq<char>, id: u128) -> Option<
    ComputeTaskV,
>
    decreases s.len(),
{
    if s.len() == 0 {
        Option::None
    } else if s[0].chain == chain && s[0].id == id {
        Option::Some(s[0].task)
    } else {
        pending_lookup(s.drop_first(), chain, id)
    }
}

/// The table after writing `t` under the key, overwriting any prior
/// record for it.
pub open spec fn pending_upsert(
    s: Seq<PendingEntryV>,
    chain: Seq<char>,
    id: u128,
    t: ComputeTaskV,
) -> Seq<PendingEntryV>
    decreases s.len(),
{
    if s.len() == 0 {
        seq![PendingEntryV { chain, id, task: t }]
    } else if s[0].chain == chain && s[0].id == id {
        seq![PendingEntryV { chain, id, task: t }] + s.drop_first()
    } else {
        seq![s[0]] + pending_upsert(s.drop_first(), chain, id, t)
    }
}

/// Writing a pending record makes it the one the key resolves to, and
/// leaves every other key as it was.
pub proof fn lemma_pending_upsert_lookup(
    s: Seq<PendingEntryV>,
    chain: Seq<char>,
    id: u128,
    t: ComputeTaskV,
)
    ensures
        pending_lookup(pending_upsert(s, chain, id, t), chain, id) == Option::Some(t),
        forall|c2: Seq<char>, i2: u128|
            !(c2 == chain && i2 == id) ==> #[trigger] pending_lookup(
                pending_upsert(s, chain, id, t),
                c2,
                i2,
            ) == pending_lookup(s, c2, i2),
    decreases s.len(),
{
    let up = pending_upsert(s, chain, id, t);
    if s.len() == 0 {
        assert forall|c2: Seq<char>, i2: u128| !(c2 == chain && i2 == id) implies #[trigger] pending_lookup(
            up,
            c2,
            i2,
        ) == pending_lookup(s, c2, i2) by {
            assert(up.drop_first() =~= Seq::<PendingEntryV>::empty());
            assert(pending_lookup(Seq::<PendingEntryV>::empty(), c2, i2) is None);
        }
    } else if s[0].chain == chain && s[0].id == id {
        assert(up[0] == (PendingEntryV { chain, id, task: t }));
        assert(up.drop_first() =~= s.drop_first());
        assert forall|c2: Seq<char>, i2: u128| !(c2 == chain && i2 == id) implies #[trigger] pending_lookup(
            up,
            c2,
            i2,
        ) == pending_lookup(s, c2, i2) by {
            assert(pending_lookup(up, c2, i2) == pending_lookup(s.drop_first(), c2, i2));
            assert(pending_lookup(s, c2, i2) == pending_lookup(s.drop_first(), c2, i2));
        }
    } else {
        lemma_pending_upsert_lookup(s.drop_first(), chain, id, t);
        assert(up[0] == s[0]);
        assert(up.drop_first() =~= pending_upsert(s.drop_first(), chain, id, t));
        assert forall|c2: Seq<char>, i2: u128| !(c2 == chain && i2 == id) implies #[trigger] pending_lookup(
            up,
            c2,
            i2,
        ) == pending_lookup(s, c2, i2) by {
            if s[0].chain == c2 && s[0].id == i2 {
                assert(pending_lookup(up, c2, i2) == Option::Some(s[0].task));
                assert(pending_lookup(s, c2, i2) == Option::Some(s[0].task));
            } else {
                assert(pending_lookup(up, c2, i2) == pending_lookup(
                    pending_upsert(s.drop_first(), chain, id, t),
                    c2,
                    i2,
                ));
                assert(pending_lookup(s, c2, i2) == pending_lookup(s.drop_first(), c2, i2));
            }
        }
    }
}

/// Helper: an upsert that found its key at position `i` is an update
/// in place.
proof fn lemma_pending_upsert_at(
    s: Seq<PendingEntryV>,
    i: int,
    chain: Seq<char>,
    id: u128,
    t: ComputeTaskV,
)
    requires
        0 <= i < s.len(),
        forall|j: int| 0 <= j < i ==> !((#[trigger] s[j]).chain == chain && s[j].id == id),
        s[i].chain == chain && s[i].id == id,
    ensures
        pending_upsert(s, chain, id, t) == s.update(i, PendingEntryV { chain, id, task: t }),
    decreases i,
{
    if i == 0 {
        assert(pending_upsert(s, chain, id, t) =~= s.update(0, PendingEntryV { chain, id, task: t }));
    } else {
        assert(s.drop_first()[i - 1] == s[i]);
        assert forall|j: int| 0 <= j < i - 1 implies !((#[trigger] s.drop_first()[j]).chain == chain
            && s.drop_first()[j].id == id) by {
            assert(s.drop_first()[j] == s[j + 1]);
        }
        lemma_pending_upsert_at(s.drop_first(), i - 1, chain, id, t);
        assert(pending_upsert(s, chain, id, t) =~= s.update(i, PendingEntryV { chain, id, task: t }));
    }
}

/// Helper: an upsert that found no matching key appends its record.
proof fn lemma_pending_upsert_append(
    s: Seq<PendingEntryV>,
    chain: Seq<char>,
    id: u128,
    t: ComputeTaskV,
)
    requires
        forall|j: int| 0 <= j < s.len() ==> !((#[trigger] s[j]).chain == chain && s[j].id == id),
    ensures
        pending_upsert(s, chain, id, t) == s.push(PendingEntryV { chain, id, task: t }),
    decreases s.len(),
{
    if s.len() == 0 {
        assert(pending_upsert(s, chain, id, t) =~= s.push(PendingEntryV { chain, id, task: t }));
    } else {
        assert forall|j: int| 0 <= j < s.drop_first().len() implies !((#[trigger] s.drop_first()[j]).chain
            == chain && s.drop_first()[j].id == id) by {
            assert(s.drop_first()[j] == s[j + 1]);
        }
        lemma_pending_upsert_append(s.drop_first(), chain, id, t);
        assert(pending_upsert(s, chain, id, t) =~= s.push(PendingEntryV { chain, id, task: t }));
    }
}

/// Helper: the first matching record decides what the key resolves to.
proof fn lemma_pending_lookup_at(s: Seq<PendingEntryV>, i: int, chain: Seq<char>, id: u128)
    requires
        0 <= i < s.len(),
        forall|j: int| 0 <= j < i ==> !((#[trigger] s[j]).chain == chain && s[j].id == id),
        s[i].chain == chain && s[i].id == id,
    ensures
        pending_lookup(s, chain, id) == Option::Some(s[i].task),
    decreases i,
{
    if i == 0 {
    } else {
        assert(s.drop_first()[i - 1] == s[i]);
        assert forall|j: int| 0 <= j < i - 1 implies !((#[trigger] s.drop_first()[j]).chain == chain
            && s.drop_first()[j].id == id) by {
            assert(s.drop_first()[j] == s[j + 1]);
        }
        lemma_pending_lookup_at(s.drop_first(), i - 1, chain, id);
    }
}

/// Helper: a key without a matching record resolves to nothing.
proof fn lemma_pending_lookup_absent(s: Seq<PendingEntryV>, chain: Seq<char>, id: u128)
    requires
        forall|j: int| 0 <= j < s.len() ==> !((#[trigger] s[j]).chain == chain && s[j].id == id),
    ensures
        pending_lookup(s, chain, id) is None,
    decreases s.len(),
{
    if s.len() > 0 {
        assert forall|j: int| 0 <= j < s.drop_first().len() implies !((#[trigger] s.drop_first()[j]).chain
            == chain && s.drop_first()[j].id == id) by {
            assert(s.drop_first()[j] == s[j + 1]);
        }
        lemma_pending_lookup_absent(s.drop_first(), chain, id);
    }
}

/// The sum of a sequence of numbers.
pub open spec fn sum_of(ns: Seq<u64>) -> int
    decreases ns.len(),
{
    if ns.len() == 0 {
        0
    } else {
        sum_of(ns.drop_last()) + ns.last()
    }
}

/// The sum of `n` numbers below `2^64` stays below `n * (2^64 - 1)`.
pub proof fn lemma_sum_bound(ns: Seq<u64>)
    ensures
        0 <= sum_of(ns) <= ns.len() * 0xffffffffffffffff,
    decreases ns.len(),
{
    if ns.len() == 0 {
    } else {
        lemma_sum_bound(ns.drop_last());
        assert((ns.len() - 1) * 0xffffffffffffffff + 0xffffffffffffffff == ns.len()
            * 0xffffffffffffffff) by (nonlinear_arith);
    }
}

/// The numbers carried under the name `nums`, when the payload holds
/// them with the expected type.
pub open spec fn nums_of(items: Seq<MessageItemV>) -> Option<Seq<u64>> {
    match find_item(items, "nums"@) {
        Option::Some(ValueV::VecUint64(ns)) => Option::Some(ns),
        _ => Option::None,
    }
}

/// Sums the numbers; the accumulator cannot overflow because no more
/// than `usize::MAX` summands exist.
pub fn sum_nums(nums: &Vec<u64>) -> (r: u128)
    ensures
        r as int == sum_of(nums@),
{
    proof {
        lemma_sum_bound(nums@);
    }
    let mut acc: u128 = 0;
    let mut i: usize = 0;
    while i < nums.len()
        invariant
            i <= nums@.len(),
            acc as int == sum_of(nums@.take(i as int)),
            acc as int <= i * 0xffffffffffffffff,
        decreases nums@.len() - i,
    {
        proof {
            assert(nums@.take(i + 1).drop_last() =~= nums@.take(i as int));
            assert((i + 1) * 0xffffffffffffffff == i * 0xffffffffffffffff + 0xffffffffffffffff)
                by (nonlinear_arith);
            assert((i + 1) * 0xffffffffffffffff <= 0xffffffffffffffff * 0xffffffffffffffff)
                by (nonlinear_arith)
                requires
                    0 <= i + 1 <= 0xffffffffffffffff,
            ;
            assert(0xffffffffffffffff * 0xffffffffffffffff
                < 0x100000000000000000000000000000000int) by (nonlinear_arith);
        }
        acc = acc + (nums[i] as u128);
        i = i + 1;
    }
    proof {
        assert(nums@.take(nums@.len() as int) =~= nums@);
    }
    acc
}

/// The consuming contract's state: the embedded cross-chain core and
/// the pending compute exchanges.
#[derive(Debug)]
pub struct Computation {
    pub cross: CrossChain,
    compute_task: Vec<PendingEntry>,
}

/// The continuation the host schedules after a session-tracked
/// dispatch: it hands back the relay's call result.
pub trait MyContract {
    /// Records the pending exchange once the relay's call result
    /// arrives; the result is absent when the relay call failed.
    fn callback(&mut self, to_chain: String, nums: Vec<u64>, relay_result: Option<u128>) -> Result<
        u128,
        CrossChainError,
    >;
}

impl Computation {
    /// The pending-record table, keyed `(remote chain, session id)`.
    pub closed spec fn tasks(&self) -> Seq<PendingEntryV> {
        self.compute_task.deep_view()
    }

    /// The embedded cross-chain core, for contracts about it.
    pub closed spec fn chain_core(&self) -> CrossChain {
        self.cross
    }

    /// A contract with empty registries and no pending exchange.
    pub fn new(owner_id: String, cross_chain_contract_id: String) -> (r: Self)
        ensures
            r.chain_core().owner_id@ == owner_id@,
            r.chain_core().cross_chain_contract_id@ == cross_chain_contract_id@,
            r.chain_core().destination_contract@ == Seq::<crate::registry::DstEntryV>::empty(),
            r.chain_core().permitted_contract@ == Seq::<crate::registry::PermEntryV>::empty(),
            r.tasks() == Seq::<PendingEntryV>::empty(),
    {
        let r = Computation {
            cross: CrossChain::new(owner_id, cross_chain_contract_id),
            compute_task: Vec::new(),
        };
        proof {
            assert(r.tasks() =~= Seq::<PendingEntryV>::empty());
        }
        r
    }

    /// Builds the session-tracked dispatch that sends `nums` to the
    /// compute action registered for `to_chain`; fails exactly when no
    /// destination is registered for the pair.
    pub fn send_compute_task(&self, to_chain: String, nums: Vec<u64>) -> (r: Result<
        OutboundMessage,
        CrossChainError,
    >)
        ensures
            r is Ok <==> dst_lookup(
                self.chain_core().destination_contract@,
                "receive_compute_task"@,
                to_chain@,
            ) is Some,
            r is Err ==> r == Result::<OutboundMessage, CrossChainError>::Err(
                CrossChainError::NotRegisteredError,
            ),
            match r {
                Result::Ok(m) => {
                    let d = dst_lookup(
                        self.chain_core().destination_contract@,
                        "receive_compute_task"@,
                        to_chain@,
                    )->Some_0;
                    &&& m@.to_chain == to_chain@
                    &&& m@.content.contract == d.contract_address
                    &&& m@.content.action == d.action_name
                    &&& m@.content.data == seq![
                        MessageItemV { name: "nums"@, value: ValueV::VecUint64(nums@) },
                    ]
                    &&& m@.session == Option::Some(
                        SessionV {
                            id: 0,
                            session_type: crate::envelope::SESSION_TYPE_EXPECT_RESPONSE,
                            callback: Option::Some(encode_utf8("receive_compute_result"@)),
                            commitment: Option::None,
                            answer: Option::None,
                        },
                    )
                },
                Result::Err(e) => true,
            },
    {
        let action_name = string_of("receive_compute_task");
        let contract = match self.cross.destination_contract.resolve(&action_name, &to_chain) {
            Ok(d) => d,
            Err(e) => {
                return Err(CrossChainError::NotRegisteredError);
            },
        };
        let mut data = Payload::new();
        proof {
            assert(!crate::payload::contains_name(Seq::<MessageItemV>::empty(), "nums"@));
        }
        data.push_item(string_of("nums"), Value::VecUint64(nums));
        proof {
            assert(data@ =~= seq![
                MessageItemV { name: "nums"@, value: data@.last().value },
            ]);
        }
        let content = Content {
            contract: contract.contract_address,
            action: contract.action_name,
            data,
        };
        let callback = crate::value::utf8_vec(string_of("receive_compute_result").as_str());
        Ok(self.cross.call_cross_with_session(to_chain, content, callback))
    }

    /// Serves one inbound compute task.  The permission gate runs
    /// first; then the numbers are read from the payload, summed, and,
    /// when the inbound session names a callback, answered through a
    /// response envelope carrying the session id that arrived.
    pub fn receive_compute_task(&self, payload: &Payload, context: &Context) -> (r: Result<
        Option<OutboundMessage>,
        CrossChainError,
    >)
        ensures
            r == Result::<Option<OutboundMessage>, CrossChainError>::Err(
                CrossChainError::AuthorizationError,
            ) <==> !is_granted(
                self.chain_core().permitted_contract@,
                context@.from_chain,
                context@.sender,
                context@.action,
            ),
            is_granted(
                self.chain_core().permitted_contract@,
                context@.from_chain,
                context@.sender,
                context@.action,
            ) ==> match nums_of(payload@) {
                Option::None => r == Result::<Option<OutboundMessage>, CrossChainError>::Err(
                    CrossChainError::CodecMismatchError,
                ),
                Option::Some(ns) => match context@.session.callback {
                    Option::None => r == Result::<Option<OutboundMessage>, CrossChainError>::Ok(
                        Option::None,
                    ),
                    Option::Some(cb) => match r {
                        Result::Ok(Option::Some(m)) => {
                            &&& m@.to_chain == context@.from_chain
                            &&& m@.content.contract == context@.sender
                            &&& m@.content.action == cb
                            &&& m@.content.data == seq![
                                MessageItemV {
                                    name: "result"@,
                                    value: ValueV::Uint128(sum_of(ns) as u128),
                                },
                            ]
                            &&& m@.session == Option::Some(
                                SessionV {
                                    id: context@.session.id,
                                    session_type: SESSION_TYPE_IS_RESPONSE,
                                    callback: Option::None,
                                    commitment: Option::None,
                                    answer: Option::None,
                                },
                            )
                        },
                        _ => false,
                    },
                },
            },
    {
        match self.cross.assert_register_permitted_contract(
            &context.from_chain,
            &context.sender,
            &context.action,
        ) {
            Ok(u) => {},
            Err(e) => {
                return Err(CrossChainError::AuthorizationError);
            },
        }
        let nums_value = match payload.get_item(string_of("nums")) {
            Some(v) => v,
            None => {
                return Err(CrossChainError::CodecMismatchError);
            },
        };
        let nums = match nums_value.get_value::<Vec<u64>>() {
            Some(ns) => ns,
            None => {
                return Err(CrossChainError::CodecMismatchError);
            },
        };
        proof {
            assert(nums.deep_view() =~= nums@);
            assert(nums_of(payload@) == Option::Some(nums@));
        }
        let sum = sum_nums(&nums);
        let callback = match &context.session.callback {
            Some(cb) => clone_bytes(cb),
            None => {
                return Ok(None);
            },
        };
        let mut data = Payload::new();
        proof {
            assert(!crate::payload::contains_name(Seq::<MessageItemV>::empty(), "result"@));
        }
        data.push_item(string_of("result"), Value::Uint128(sum));
        proof {
            assert(data@ =~= seq![
                MessageItemV { name: "result"@, value: ValueV::Uint128(sum) },
            ]);
        }
        let content = Content { contract: clone_bytes(&context.sender), action: callback, data };
        let out = self.cross.send_response_message(
            clone_string(&context.from_chain),
            content,
            context.session.id,
        );
        Ok(Some(out))
    }

    /// Resolves the pending record that matches an inbound response:
    /// the permission gate runs first, then the record keyed by the
    /// response's origin chain and session id receives the result.
    pub fn receive_compute_result(&mut self, result: u128, context: &Context) -> (r: Result<
        (),
        CrossChainError,
    >)
        ensures
            r == Result::<(), CrossChainError>::Err(CrossChainError::AuthorizationError) <==> !is_granted(
                old(self).chain_core().permitted_contract@,
                context@.from_chain,
                context@.sender,
                context@.action,
            ),
            is_granted(
                old(self).chain_core().permitted_contract@,
                context@.from_chain,
                context@.sender,
                context@.action,
            ) ==> match pending_lookup(old(self).tasks(), context@.from_chain, context@.session.id) {
                Option::None => r == Result::<(), CrossChainError>::Err(
                    CrossChainError::NotRegisteredError,
                ),
                Option::Some(t) => r is Ok && final(self).tasks() == pending_upsert(
                    old(self).tasks(),
                    context@.from_chain,
                    context@.session.id,
                    ComputeTaskV { nums: t.nums, result: Option::Some(result) },
                ),
            },
            r is Err ==> final(self).tasks() == old(self).tasks(),
            final(self).chain_core() == old(self).chain_core(),
    {
        match self.cross.assert_register_permitted_contract(
            &context.from_chain,
            &context.sender,
            &context.action,
        ) {
            Ok(u) => {},
            Err(e) => {
                return Err(CrossChainError::AuthorizationError);
            },
        }
        let mut found: bool = false;
        let mut idx: usize = 0;
        let mut i: usize = 0;
        while i < self.compute_task.len()
            invariant
                i <= self.compute_task@.len(),
                self == old(self),
                !found ==> forall|j: int|
                    0 <= j < i ==> !((#[trigger] self.tasks()[j]).chain == context@.from_chain
                        && self.tasks()[j].id == context@.session.id),
                found ==> idx < i && self.tasks()[idx as int].chain == context@.from_chain
                    && self.tasks()[idx as int].id == context@.session.id && (forall|j: int|
                    0 <= j < idx ==> !((#[trigger] self.tasks()[j]).chain == context@.from_chain
                        && self.tasks()[j].id == context@.session.id)),
            decreases self.compute_task@.len() - i,
        {
            if !found && self.compute_task[i].chain.eq(&context.from_chain)
                && self.compute_task[i].id == context.session.id {
                found = true;
                idx = i;
            }
            i = i + 1;
        }
        if !found {
            proof {
                lemma_pending_lookup_absent(self.tasks(), context@.from_chain, context@.session.id);
            }
            return Err(CrossChainError::NotRegisteredError);
        }
        proof {
            lemma_pending_lookup_at(
                self.tasks(),
                idx as int,
                context@.from_chain,
                context@.session.id,
            );
        }
        let ghost before = self.tasks();
        let ghost before_entries = self.compute_task@;
        let ghost old_task = self.tasks()[idx as int].task;
        proof {
            lemma_pending_upsert_at(
                self.tasks(),
                idx as int,
                context@.from_chain,
                context@.session.id,
                ComputeTaskV { nums: old_task.nums, result: Option::Some(result) },
            );
        }
        let old_entry = self.compute_task.remove(idx);
        let new_entry = PendingEntry {
            chain: old_entry.chain,
            id: old_entry.id,
            task: ComputeTask { nums: old_entry.task.nums, result: Some(result) },
        };
        proof {
            assert(new_entry@ == (PendingEntryV {
                chain: context@.from_chain,
                id: context@.session.id,
                task: ComputeTaskV { nums: old_task.nums, result: Option::Some(result) },
            }));
        }
        self.compute_task.insert(idx, new_entry);
        proof {
            let after = final(self).compute_task@;
            assert(after =~= before_entries.update(idx as int, after[idx as int]));
            assert(final(self).tasks() =~= before.update(
                idx as int,
                PendingEntryV {
                    chain: context@.from_chain,
                    id: context@.session.id,
                    task: ComputeTaskV { nums: old_task.nums, result: Option::Some(result) },
                },
            ));
        }
        Ok(())
    }

    /// Records one pending exchange from the relay's call result: on
    /// success the issued session id keys the record, and on failure
    /// nothing is persisted, so no orphaned state remains.
    pub fn callback(&mut self, to_chain: String, nums: Vec<u64>, relay_result: Option<u128>) -> (r:
        Result<u128, CrossChainError>)
        ensures
            relay_result is None ==> r == Result::<u128, CrossChainError>::Err(
                CrossChainError::RelayDispatchError,
            ) && final(self).tasks() == old(self).tasks(),
            match relay_result {
                Option::Some(id) => r == Result::<u128, CrossChainError>::Ok(id)
                    && final(self).tasks() == pending_upsert(
                    old(self).tasks(),
                    to_chain@,
                    id,
                    ComputeTaskV { nums: nums@, result: Option::None },
                ),
                Option::None => true,
            },
            final(self).chain_core() == old(self).chain_core(),
    {
        let id = match relay_result {
            Some(id) => id,
            None => {
                return Err(CrossChainError::RelayDispatchError);
            },
        };
        let ghost taskv = ComputeTaskV { nums: nums@, result: Option::None };
        let mut found: bool = false;
        let mut idx: usize = 0;
        let mut i: usize = 0;
        while i < self.compute_task.len()
            invariant
                i <= self.compute_task@.len(),
                self == old(self),
                !found ==> forall|j: int|
                    0 <= j < i ==> !((#[trigger] self.tasks()[j]).chain == to_chain@
                        && self.tasks()[j].id == id),
                found ==> idx < i && self.tasks()[idx as int].chain == to_chain@
                    && self.tasks()[idx as int].id == id && (forall|j: int|
                    0 <= j < idx ==> !((#[trigger] self.tasks()[j]).chain == to_chain@
                        && self.tasks()[j].id == id)),
            decreases self.compute_task@.len() - i,
        {
            if !found && self.compute_task[i].chain.eq(&to_chain) && self.compute_task[i].id == id {
                found = true;
                idx = i;
            }
            i = i + 1;
        }
        let ghost before = self.tasks();
        let ghost before_entries = self.compute_task@;
        let new_entry = PendingEntry {
            chain: to_chain,
            id,
            task: ComputeTask { nums, result: None },
        };
        proof {
            assert(new_entry@ == (PendingEntryV { chain: new_entry.chain@, id, task: taskv }));
        }
        if found {
            proof {
                lemma_pending_upsert_at(before, idx as int, new_entry.chain@, id, taskv);
            }
            self.compute_task.remove(idx);
            self.compute_task.insert(idx, new_entry);
            proof {
                let after = final(self).compute_task@;
                assert(after =~= before_entries.update(idx as int, after[idx as int]));
                assert(final(self).tasks() =~= before.update(
                    idx as int,
                    PendingEntryV { chain: after[idx as int].chain@, id, task: taskv },
                ));
            }
        } else {
            proof {
                lemma_pending_upsert_append(before, new_entry.chain@, id, taskv);
            }
            self.compute_task.push(new_entry);
            proof {
                assert(final(self).tasks() =~= before.push(
                    PendingEntryV { chain: final(self).compute_task@.last().chain@, id, task: taskv },
                ));
            }
        }
        Ok(id)
    }

    /// The pending record stored under the key, if any.
    pub fn get_compute_task(&self, chain: &String, id: u128) -> (r: Option<ComputeTask>)
        ensures
            match r {
                Option::Some(t) => pending_lookup(self.tasks(), chain@, id) == Option::Some(t@),
                Option::None => pending_lookup(self.tasks(), chain@, id) is None,
            },
    {
        proof {
            assert(self.tasks().skip(0) =~= self.tasks());
        }
        let mut i: usize = 0;
        while i < self.compute_task.len()
            invariant
                i <= self.compute_task@.len(),
                pending_lookup(self.tasks(), chain@, id) == pending_lookup(
                    self.tasks().skip(i as int),
                    chain@,
                    id,
                ),
            decreases self.compute_task@.len() - i,
        {
            proof {
                assert(self.tasks().skip(i as int)[0] == self.tasks()[i as int]);
                assert(self.tasks().skip(i as int).drop_first() =~= self.tasks().skip(i + 1));
            }
            if self.compute_task[i].chain.eq(chain) && self.compute_task[i].id == id {
                return Some(self.compute_task[i].task.clone());
            }
            i = i + 1;
        }
        proof {
            assert(self.tasks().skip(self.tasks().len() as int) =~= Seq::<PendingEntryV>::empty());
        }
        None
    }

    /// The destination registered for the pair, for callers that
    /// inspect the registry.
    pub fn get_dst_contract(&self, chain: String, action_name: String) -> (r: Result<
        DstContract,
        CrossChainError,
    >)
        ensures
            match r {
                Result::Ok(d) => dst_lookup(self.chain_core().destination_contract@, action_name@, chain@)
                    == Option::Some(d@),
                Result::Err(e) => e == CrossChainError::NotRegisteredError && dst_lookup(
                    self.chain_core().destination_contract@,
                    action_name@,
                    chain@,
                ) is None,
            },
    {
        self.cross.destination_contract.resolve(&action_name, &chain)
    }
}

impl MyContract for Computation {
    fn callback(&mut self, to_chain: String, nums: Vec<u64>, relay_result: Option<u128>) -> Result<
        u128,
        CrossChainError,
    > {
        Computation::callback(self, to_chain, nums, relay_result)
    }
}

impl crate::cross_chain::CrossChainCore for Computation {
    fn call_cross(&self, to_chain: String, content: Content) -> OutboundMessage {
        self.cross.call_cross(to_chain, content)
    }

    fn call_cross_with_session(
        &self,
        to_chain: String,
        content: Content,
        callback: Vec<u8>,
    ) -> OutboundMessage {
        self.cross.call_cross_with_session(to_chain, content, callback)
    }

    fn send_response_message(
        &self,
        to_chain: String,
        content: Content,
        id: u128,
    ) -> OutboundMessage {
        self.cross.send_response_message(to_chain, content, id)
    }
}

impl RegisterCore for Computation {
    fn register_permitted_contract(
        &mut self,
        chain_name: String,
        sender: String,
        action_name: String,
    ) -> Result<(), CrossChainError> {
        self.cross.register_permitted_contract(chain_name, sender, action_name)
    }

    fn register_dst_contract(
        &mut self,
        caller: String,
        chain_name: String,
        action_name: String,
        contract_address: String,
        contract_action_name: String,
    ) -> Result<(), CrossChainError> {
        self.cross.register_dst_contract(
            caller,
            chain_name,
            action_name,
            contract_address,
            contract_action_name,
        )
    }
}

/// A `String` holding the given characters.
pub(crate) fn string_of(s: &str) -> (r: String)
    ensures
        r@ == s@,
{
    String::from_str(s)
}

/// A copy of a `String`.
pub(crate) fn clone_string(s: &String) -> (r: String)
    ensures
        r@ == s@,
{
    s.clone()
}

} // verus!
