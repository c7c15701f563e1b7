//! The two persisted registries: destinations a local action may call
//! on each remote chain, and the actions each remote sender may invoke
//! here.  The permission check is the system's sole inbound security
//! gate.
use vstd::prelude::*;

use crate::envelope::DstContract;
use crate::envelope::DstContractV;
use crate::errors::CrossChainError;

verus! {

/// One destination entry: the remote endpoint registered for a
/// `(local action, remote chain)` pair.
#[derive(Debug)]
pub struct DstEntry {
    pub action: String,
    pub chain: String,
    pub value: DstContract,
}

/// Mathematical model of a [`DstEntry`].
pub struct DstEntryV {
    pub action: Seq<char>,
    pub chain: Seq<char>,
    pub value: DstContractV,
}

impl View for DstEntry {
    type V = DstEntryV;

    open spec fn view(&self) -> DstEntryV {
        DstEntryV { action: self.action@, chain: self.chain@, value: self.value@ }
    }
}

impl DeepView for DstEntry {
    type V = DstEntryV;

    open spec fn deep_view(&self) -> DstEntryV {
        self.view()
    }
}

/// The remote endpoint registered for the pair, if any: the first
/// matching entry wins, and upserts keep at most one entry per pair.
pub open spec fn dst_lookup(s: Seq<DstEntryV>, action: Seq<char>, chain: Seq<char>) -> Option<
    DstContractV,
>
    decreases s.len(),
{
    if s.len() == 0 {
        Option::None
    } else if s[0].action == action && s[0].chain == chain {
        Option::Some(s[0].value)
    } else {
        dst_lookup(s.drop_first(), action, chain)
    }
}

/// The registry after writing `d` under the pair, overwriting any
/// prior entry for it without warning.
pub open spec fn dst_upsert(
    s: Seq<DstEntryV>,
    action: Seq<char>,
    chain: Seq<char>,
    d: DstContractV,
) -> Seq<DstEntryV>
    decreases s.len(),
{
    if s.len() == 0 {
        seq![DstEntryV { action, chain, value: d }]
    } else if s[0].action == action && s[0].chain == chain {
        seq![DstEntryV { action, chain, value: d }] + s.drop_first()
    } else {
        seq![s[0]] + dst_upsert(s.drop_first(), action, chain, d)
    }
}

/// The law that registering and then resolving the same pair returns
/// exactly the registered endpoint, and that every other pair is left
/// as it was.
pub proof fn lemma_register_then_resolve(
    s: Seq<DstEntryV>,
    action: Seq<char>,
    chain: Seq<char>,
    d: DstContractV,
)
    ensures
        dst_lookup(dst_upsert(s, action, chain, d), action, chain) == Option::Some(d),
        forall|a2: Seq<char>, c2: Seq<char>|
            !(a2 == action && c2 == chain) ==> #[trigger] dst_lookup(
                dst_upsert(s, action, chain, d),
                a2,
                c2,
            ) == dst_lookup(s, a2, c2),
    decreases s.len(),
{
    let up = dst_upsert(s, action, chain, d);
    if s.len() == 0 {
        assert forall|a2: Seq<char>, c2: Seq<char>| !(a2 == action && c2 == chain) implies #[trigger] dst_lookup(
            up,
            a2,
            c2,
        ) == dst_lookup(s, a2, c2) by {
            assert(up.drop_first() =~= Seq::<DstEntryV>::empty());
            assert(dst_lookup(Seq::<DstEntryV>::empty(), a2, c2) is None);
        }
    } else if s[0].action == action && s[0].chain == chain {
        assert(up[0] == (DstEntryV { action, chain, value: d }));
        assert(up.drop_first() =~= s.drop_first());
        assert forall|a2: Seq<char>, c2: Seq<char>| !(a2 == action && c2 == chain) implies #[trigger] dst_lookup(
            up,
            a2,
            c2,
        ) == dst_lookup(s, a2, c2) by {
            assert(dst_lookup(up, a2, c2) == dst_lookup(s.drop_first(), a2, c2));
            assert(dst_lookup(s, a2, c2) == dst_lookup(s.drop_first(), a2, c2));
        }
    } else {
        lemma_register_then_resolve(s.drop_first(), action, chain, d);
        assert(up[0] == s[0]);
        assert(up.drop_first() =~= dst_upsert(s.drop_first(), action, chain, d));
        assert forall|a2: Seq<char>, c2: Seq<char>| !(a2 == action && c2 == chain) implies #[trigger] dst_lookup(
            up,
            a2,
            c2,
        ) == dst_lookup(s, a2, c2) by {
            if s[0].action == a2 && s[0].chain == c2 {
                assert(dst_lookup(up, a2, c2) == Option::Some(s[0].value));
                assert(dst_lookup(s, a2, c2) == Option::Some(s[0].value));
            } else {
                assert(dst_lookup(up, a2, c2) == dst_lookup(
                    dst_upsert(s.drop_first(), action, chain, d),
                    a2,
                    c2,
                ));
                assert(dst_lookup(s, a2, c2) == dst_lookup(s.drop_first(), a2, c2));
            }
        }
    }
}

/// Helper: an upsert that found its pair at position `i` is an update
/// in place.
proof fn lemma_dst_upsert_at(
    s: Seq<DstEntryV>,
    i: int,
    action: Seq<char>,
    chain: Seq<char>,
    d: DstContractV,
)
    requires
        0 <= i < s.len(),
        forall|j: int| 0 <= j < i ==> !((#[trigger] s[j]).action == action && s[j].chain == chain),
        s[i].action == action && s[i].chain == chain,
    ensures
        dst_upsert(s, action, chain, d) == s.update(i, DstEntryV { action, chain, value: d }),
    decreases i,
{
    if i == 0 {
        assert(dst_upsert(s, action, chain, d) =~= s.update(
            0,
            DstEntryV { action, chain, value: d },
        ));
    } else {
        assert(s.drop_first()[i - 1] == s[i]);
        assert forall|j: int| 0 <= j < i - 1 implies !((#[trigger] s.drop_first()[j]).action
            == action && s.drop_first()[j].chain == chain) by {
            assert(s.drop_first()[j] == s[j + 1]);
        }
        lemma_dst_upsert_at(s.drop_first(), i - 1, action, chain, d);
        assert(dst_upsert(s, action, chain, d) =~= s.update(
            i,
            DstEntryV { action, chain, value: d },
        ));
    }
}

/// Helper: an upsert that found no matching pair appends its entry.
proof fn lemma_dst_upsert_append(
    s: Seq<DstEntryV>,
    action: Seq<char>,
    chain: Seq<char>,
    d: DstContractV,
)
    requires
        forall|j: int|
            0 <= j < s.len() ==> !((#[trigger] s[j]).action == action && s[j].chain == chain),
    ensures
        dst_upsert(s, action, chain, d) == s.push(DstEntryV { action, chain, value: d }),
    decreases s.len(),
{
    if s.len() == 0 {
        assert(dst_upsert(s, action, chain, d) =~= s.push(DstEntryV { action, chain, value: d }));
    } else {
        assert forall|j: int| 0 <= j < s.drop_first().len() implies !((#[trigger] s.drop_first()[j]).action
            == action && s.drop_first()[j].chain == chain) by {
            assert(s.drop_first()[j] == s[j + 1]);
        }
        lemma_dst_upsert_append(s.drop_first(), action, chain, d);
        assert(dst_upsert(s, action, chain, d) =~= s.push(DstEntryV { action, chain, value: d }));
    }
}

/// The owner-managed mapping from a local action to the remote
/// endpoint it calls on each remote chain.
#[derive(Debug)]
pub struct DestinationRegistry {
    entries: Vec<DstEntry>,
}

impl View for DestinationRegistry {
    type V = Seq<DstEntryV>;

    closed spec fn view(&self) -> Seq<DstEntryV> {
        self.entries.deep_view()
    }
}

impl DestinationRegistry {
    /// An empty registry.
    pub fn new() -> (r: Self)
        ensures
            r@ == Seq::<DstEntryV>::empty(),
    {
        let r = DestinationRegistry { entries: Vec::new() };
        proof {
            assert(r@ =~= Seq::<DstEntryV>::empty());
        }
        r
    }

    /// Writes the endpoint under the `(action, chain)` pair,
    /// overwriting any prior entry for the pair without warning.
    pub fn register(&mut self, action: String, chain: String, value: DstContract)
        ensures
            final(self)@ == dst_upsert(old(self)@, action@, chain@, value@),
    {
        let ghost entry_v = DstEntryV { action: action@, chain: chain@, value: value@ };
        let mut found: bool = false;
        let mut idx: usize = 0;
        let mut i: usize = 0;
        while i < self.entries.len()
            invariant
                i <= self.entries@.len(),
                self == old(self),
                !found ==> forall|j: int|
                    0 <= j < i ==> !((#[trigger] self@[j]).action == action@ && self@[j].chain
                        == chain@),
                found ==> idx < i && self@[idx as int].action == action@ && self@[idx as int].chain
                    == chain@ && (forall|j: int|
                    0 <= j < idx ==> !((#[trigger] self@[j]).action == action@ && self@[j].chain
                        == chain@)),
            decreases self.entries@.len() - i,
        {
            if !found && self.entries[i].action.eq(&action) && self.entries[i].chain.eq(&chain) {
                found = true;
                idx = i;
            }
            i = i + 1;
        }
        let ghost before = self@;
        let ghost before_entries = self.entries@;
        if found {
            proof {
                lemma_dst_upsert_at(self@, idx as int, action@, chain@, value@);
            }
            let new_entry = DstEntry { action, chain, value };
            proof {
                assert(new_entry@ == entry_v);
            }
            self.entries.remove(idx);
            self.entries.insert(idx, new_entry);
            proof {
                let after = final(self).entries@;
                assert(after =~= before_entries.update(idx as int, after[idx as int]));
                assert(after[idx as int]@ == entry_v);
                assert(final(self)@ =~= before.update(idx as int, entry_v));
            }
        } else {
            proof {
                lemma_dst_upsert_append(self@, action@, chain@, value@);
            }
            self.entries.push(DstEntry { action, chain, value });
            proof {
                assert(final(self)@ =~= before.push(entry_v));
            }
        }
    }

    /// The endpoint registered for the pair: fails with the
    /// not-registered error exactly when no entry exists for it.
    pub fn resolve(&self, action: &String, chain: &String) -> (r: Result<
        DstContract,
        CrossChainError,
    >)
        ensures
            match r {
                Result::Ok(d) => dst_lookup(self@, action@, chain@) == Option::Some(d@),
                Result::Err(e) => e == CrossChainError::NotRegisteredError && dst_lookup(
                    self@,
                    action@,
                    chain@,
                ) is None,
            },
    {
        proof {
            assert(self@.skip(0) =~= self@);
        }
        let mut i: usize = 0;
        while i < self.entries.len()
            invariant
                i <= self.entries@.len(),
                dst_lookup(self@, action@, chain@) == dst_lookup(
                    self@.skip(i as int),
                    action@,
                    chain@,
                ),
            decreases self.entries@.len() - i,
        {
            proof {
                assert(self@.skip(i as int)[0] == self@[i as int]);
                assert(self@.skip(i as int).drop_first() =~= self@.skip(i + 1));
            }
            if self.entries[i].action.eq(action) && self.entries[i].chain.eq(chain) {
                return Ok(self.entries[i].value.clone());
            }
            i = i + 1;
        }
        proof {
            assert(self@.skip(self@.len() as int) =~= Seq::<DstEntryV>::empty());
        }
        Err(CrossChainError::NotRegisteredError)
    }
}

/// One granted permission: the named remote sender on the named chain
/// may invoke the named local action.
#[derive(Debug)]
pub struct PermEntry {
    pub chain: String,
    pub sender: Vec<u8>,
    pub action: String,
}

/// Mathematical model of a [`PermEntry`].
pub struct PermEntryV {
    pub chain: Seq<char>,
    pub sender: Seq<u8>,
    pub action: Seq<char>,
}

impl View for PermEntry {
    type V = PermEntryV;

    open spec fn view(&self) -> PermEntryV {
        PermEntryV { chain: self.chain@, sender: self.sender@, action: self.action@ }
    }
}

impl DeepView for PermEntry {
    type V = PermEntryV;

    open spec fn deep_view(&self) -> PermEntryV {
        self.view()
    }
}

/// Whether the triple has been granted.
pub open spec fn is_granted(
    s: Seq<PermEntryV>,
    chain: Seq<char>,
    sender: Seq<u8>,
    action: Seq<char>,
) -> bool {
    exists|i: int|
        0 <= i < s.len() && (#[trigger] s[i]).chain == chain && s[i].sender == sender && s[i].action
            == action
}

/// The law that a grant is visible to the very next check, and that it
/// disturbs no other triple.  With the grant contract's refusal of an
/// already-granted triple, it also makes the second of two identical
/// grants fail.
pub proof fn lemma_grant_then_check(
    s: Seq<PermEntryV>,
    chain: Seq<char>,
    sender: Seq<u8>,
    action: Seq<char>,
)
    ensures
        is_granted(s.push(PermEntryV { chain, sender, action }), chain, sender, action),
        forall|c2: Seq<char>, s2: Seq<u8>, a2: Seq<char>|
            !(c2 == chain && s2 == sender && a2 == action) ==> (#[trigger] is_granted(
                s.push(PermEntryV { chain, sender, action }),
                c2,
                s2,
                a2,
            ) == is_granted(s, c2, s2, a2)),
{
    let t = PermEntryV { chain, sender, action };
    assert(s.push(t)[s.len() as int] == t);
    assert forall|c2: Seq<char>, s2: Seq<u8>, a2: Seq<char>|
        !(c2 == chain && s2 == sender && a2 == action) implies (#[trigger] is_granted(
        s.push(t),
        c2,
        s2,
        a2,
    ) == is_granted(s, c2, s2, a2)) by {
        if is_granted(s, c2, s2, a2) {
            let i = choose|i: int|
                0 <= i < s.len() && (#[trigger] s[i]).chain == c2 && s[i].sender == s2
                    && s[i].action == a2;
            assert(s.push(t)[i] == s[i]);
        }
        if is_granted(s.push(t), c2, s2, a2) {
            let i = choose|i: int|
                0 <= i < s.push(t).len() && (#[trigger] s.push(t)[i]).chain == c2 && s.push(
                    t,
                )[i].sender == s2 && s.push(t)[i].action == a2;
            assert(i < s.len());
            assert(s[i] == s.push(t)[i]);
        }
    }
}

/// The mapping from `(remote chain, remote sender)` to the local
/// actions that sender may invoke.  It grows only by explicit grants.
#[derive(Debug)]
pub struct PermissionRegistry {
    entries: Vec<PermEntry>,
}

impl View for PermissionRegistry {
    type V = Seq<PermEntryV>;

    closed spec fn view(&self) -> Seq<PermEntryV> {
        self.entries.deep_view()
    }
}

/// Whether two byte strings hold the same bytes.
pub(crate) fn bytes_eq(a: &Vec<u8>, b: &Vec<u8>) -> (r: bool)
    ensures
        r == (a@ == b@),
{
    if a.len() != b.len() {
        return false;
    }
    let mut i: usize = 0;
    while i < a.len()
        invariant
            i <= a@.len(),
            a@.len() == b@.len(),
            forall|j: int| 0 <= j < i ==> a@[j] == b@[j],
        decreases a@.len() - i,
    {
        if a[i] != b[i] {
            return false;
        }
        i = i + 1;
    }
    proof {
        assert(a@ =~= b@);
    }
    true
}

impl PermissionRegistry {
    /// An empty registry: no remote sender is trusted for any chain.
    pub fn new() -> (r: Self)
        ensures
            r@ == Seq::<PermEntryV>::empty(),
    {
        let r = PermissionRegistry { entries: Vec::new() };
        proof {
            assert(r@ =~= Seq::<PermEntryV>::empty());
        }
        r
    }

    /// Grants the triple; refuses a triple already granted, so that an
    /// accidental double grant surfaces.
    pub fn grant(&mut self, chain: String, sender: Vec<u8>, action: String) -> (r: Result<
        (),
        CrossChainError,
    >)
        ensures
            r is Ok <==> !is_granted(old(self)@, chain@, sender@, action@),
            r is Ok ==> final(self)@ == old(self)@.push(
                PermEntryV { chain: chain@, sender: sender@, action: action@ },
            ),
            r is Err ==> final(self)@ == old(self)@ && r == Result::<
                (),
                CrossChainError,
            >::Err(CrossChainError::AlreadyGrantedError),
    {
        let ghost entry_v = PermEntryV { chain: chain@, sender: sender@, action: action@ };
        let mut i: usize = 0;
        while i < self.entries.len()
            invariant
                i <= self.entries@.len(),
                self == old(self),
                forall|j: int|
                    0 <= j < i ==> !((#[trigger] self@[j]).chain == chain@ && self@[j].sender
                        == sender@ && self@[j].action == action@),
            decreases self.entries@.len() - i,
        {
            if self.entries[i].chain.eq(&chain) && bytes_eq(&self.entries[i].sender, &sender)
                && self.entries[i].action.eq(&action) {
                proof {
                    assert(self@[i as int].chain == chain@ && self@[i as int].sender == sender@
                        && self@[i as int].action == action@);
                    assert(is_granted(old(self)@, chain@, sender@, action@));
                }
                return Err(CrossChainError::AlreadyGrantedError);
            }
            i = i + 1;
        }
        proof {
            assert(!is_granted(self@, chain@, sender@, action@));
        }
        let ghost before = self@;
        self.entries.push(PermEntry { chain, sender, action });
        proof {
            assert(final(self)@ =~= before.push(entry_v));
        }
        Ok(())
    }

    /// The sole inbound security gate: succeeds exactly when the
    /// triple has been granted, and fails with the authorization error
    /// otherwise.  It must run before any side effect of an inbound
    /// message handler.
    pub fn check(&self, chain: &String, sender: &Vec<u8>, action: &String) -> (r: Result<
        (),
        CrossChainError,
    >)
        ensures
            r is Ok <==> is_granted(self@, chain@, sender@, action@),
            r is Err ==> r == Result::<(), CrossChainError>::Err(
                CrossChainError::AuthorizationError,
            ),
    {
        let mut i: usize = 0;
        while i < self.entries.len()
            invariant
                i <= self.entries@.len(),
                forall|j: int|
                    0 <= j < i ==> !((#[trigger] self@[j]).chain == chain@ && self@[j].sender
                        == sender@ && self@[j].action == action@),
            decreases self.entries@.len() - i,
        {
            if self.entries[i].chain.eq(chain) && bytes_eq(&self.entries[i].sender, sender)
                && self.entries[i].action.eq(action) {
                proof {
                    assert(self@[i as int].chain == chain@ && self@[i as int].sender == sender@
                        && self@[i as int].action == action@);
                    assert(is_granted(self@, chain@, sender@, action@));
                }
                return Ok(());
            }
            i = i + 1;
        }
        Err(CrossChainError::AuthorizationError)
    }
}

} // verus!
