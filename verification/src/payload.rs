//! The ordered, named collection of values carried inside every
//! message, with its canonical byte form and its flat raw form.
//!
//! An item's name is unique within a payload: pushing a second item
//! under an existing name leaves the payload unchanged, so the first
//! binding of a name always wins, and lookup is a front-to-back scan.
use vstd::prelude::*;
use vstd::utf8::encode_utf8;

use crate::codec::encode_structural;
use crate::codec::lemma_parse_str_block_round_trip;
use crate::codec::lemma_parse_value_round_trip;
use crate::codec::parse_str_block;
use crate::codec::parse_str_block_exec;
use crate::codec::parse_value;
use crate::codec::parse_value_at;
use crate::codec::string_block;
use crate::codec::struct_bytes;
use crate::codec::value_in_range;
use crate::encoding::be_bytes;
use crate::encoding::lemma_be_bytes_len;
use crate::encoding::lemma_nat_of_be_bytes;
use crate::encoding::lemma_pow256_vals;
use crate::encoding::nat_of_be;
use crate::encoding::pow256;
use crate::encoding::push_be;
use crate::encoding::push_bytes;
use crate::encoding::read_be;
use crate::value::raw_bytes;
use crate::value::Value;
use crate::value::ValueType;
use crate::value::ValueV;

verus! {

/// One named value of a payload.
#[derive(Debug, PartialEq)]
pub struct MessageItem {
    pub name: String,
    pub value: Value,
}

/// Mathematical model of a [`MessageItem`].
pub struct MessageItemV {
    pub name: Seq<char>,
    pub value: ValueV,
}

impl View for MessageItem {
    type V = MessageItemV;

    open spec fn view(&self) -> MessageItemV {
        MessageItemV { name: self.name@, value: self.value@ }
    }
}

impl DeepView for MessageItem {
    type V = MessageItemV;

    open spec fn deep_view(&self) -> MessageItemV {
        self.view()
    }
}

impl Clone for MessageItem {
    fn clone(&self) -> (r: Self)
        ensures
            r@ == self@,
    {
        MessageItem { name: self.name.clone(), value: self.value.clone() }
    }
}

/// An ordered sequence of named values; order is insertion order and
/// is significant for the raw-byte encoding.
#[derive(Debug, PartialEq)]
pub struct Payload(Vec<MessageItem>);

impl View for Payload {
    type V = Seq<MessageItemV>;

    closed spec fn view(&self) -> Seq<MessageItemV> {
        self.0.deep_view()
    }
}

impl Clone for Payload {
    fn clone(&self) -> (r: Self)
        ensures
            r@ == self@,
    {
        let mut items: Vec<MessageItem> = Vec::new();
        let mut i: usize = 0;
        while i < self.0.len()
            invariant
                i <= self.0@.len(),
                items@.len() == i,
                forall|j: int| 0 <= j < i ==> items@[j]@ == self.0@[j]@,
            decreases self.0@.len() - i,
        {
            items.push(self.0[i].clone());
            i = i + 1;
        }
        let r = Payload(items);
        proof {
            assert(r@ =~= self@);
        }
        r
    }
}

/// Whether some item of `items` bears the name `n`.
pub open spec fn contains_name(items: Seq<MessageItemV>, n: Seq<char>) -> bool {
    exists|i: int| 0 <= i < items.len() && (#[trigger] items[i]).name == n
}

/// The value of the first item named `n`, if any: first match wins.
pub open spec fn find_item(items: Seq<MessageItemV>, n: Seq<char>) -> Option<ValueV>
    decreases items.len(),
{
    if items.len() == 0 {
        Option::None
    } else if items[0].name == n {
        Option::Some(items[0].value)
    } else {
        find_item(items.drop_first(), n)
    }
}

/// Lookup is absent exactly when no item bears the name: the law that
/// a name not present in a payload yields nothing.
pub proof fn lemma_find_item_absent(items: Seq<MessageItemV>, n: Seq<char>)
    ensures
        find_item(items, n) is None <==> !contains_name(items, n),
    decreases items.len(),
{
    if items.len() == 0 {
    } else if items[0].name == n {
    } else {
        lemma_find_item_absent(items.drop_first(), n);
        assert forall|i: int| 0 <= i < items.len() && (#[trigger] items[i]).name == n implies
            contains_name(items.drop_first(), n) by {
            assert(items.drop_first()[i - 1] == items[i]);
        }
    }
}

/// The flat raw-byte encoding of a payload: each item's value encoded
/// in order, names omitted, with no separators.
pub open spec fn payload_raw(items: Seq<MessageItemV>) -> Seq<u8>
    decreases items.len(),
{
    if items.len() == 0 {
        Seq::empty()
    } else {
        payload_raw(items.drop_last()) + raw_bytes(items.last().value)
    }
}

/// Unrolls one step of [`payload_raw`] over a prefix.
pub proof fn lemma_payload_raw_take(items: Seq<MessageItemV>, i: int)
    requires
        0 <= i < items.len(),
    ensures
        payload_raw(items.take(i + 1)) == payload_raw(items.take(i)) + raw_bytes(items[i].value),
{
    assert(items.take(i + 1).drop_last() =~= items.take(i));
}

/// One item's canonical byte form: its length-prefixed name, then the
/// structural encoding of its value.
pub open spec fn item_block(it: MessageItemV) -> Seq<u8> {
    string_block(it.name) + struct_bytes(it.value)
}

/// Concatenated canonical item encodings.
pub open spec fn concat_item_blocks(items: Seq<MessageItemV>) -> Seq<u8>
    decreases items.len(),
{
    if items.len() == 0 {
        Seq::empty()
    } else {
        concat_item_blocks(items.drop_last()) + item_block(items.last())
    }
}

/// Unrolls one step of [`concat_item_blocks`] over a prefix.
pub proof fn lemma_concat_item_blocks_take(items: Seq<MessageItemV>, i: int)
    requires
        0 <= i < items.len(),
    ensures
        concat_item_blocks(items.take(i + 1)) == concat_item_blocks(items.take(i)) + item_block(
            items[i],
        ),
{
    assert(items.take(i + 1).drop_last() =~= items.take(i));
}

/// Unrolls [`concat_item_blocks`] at the front.
pub proof fn lemma_concat_item_blocks_first(items: Seq<MessageItemV>)
    requires
        items.len() > 0,
    ensures
        concat_item_blocks(items) == item_block(items[0]) + concat_item_blocks(
            items.drop_first(),
        ),
    decreases items.len(),
{
    if items.len() == 1 {
        assert(items.drop_last() =~= Seq::<MessageItemV>::empty());
        assert(items.drop_first() =~= Seq::<MessageItemV>::empty());
        assert(concat_item_blocks(items) =~= item_block(items[0]) + concat_item_blocks(
            items.drop_first(),
        ));
    } else {
        lemma_concat_item_blocks_first(items.drop_last());
        assert(items.drop_last()[0] == items[0]);
        assert(items.drop_last().drop_first() =~= items.drop_first().drop_last());
        assert(items.drop_first().last() == items.last());
        assert(concat_item_blocks(items) =~= item_block(items[0]) + concat_item_blocks(
            items.drop_first(),
        ));
    }
}

/// The canonical byte form of a whole payload: an eight-byte item
/// count, then each item's canonical encoding.
pub open spec fn payload_bytes(items: Seq<MessageItemV>) -> Seq<u8> {
    be_bytes(items.len(), 8) + concat_item_blocks(items)
}

/// Parses one item from the front of `s`.
pub open spec fn parse_item(s: Seq<u8>) -> Option<(MessageItemV, int)> {
    match parse_str_block(s) {
        Option::Some((n, k)) => match parse_value_at(s.skip(k)) {
            Option::Some((v, m)) => Option::Some((MessageItemV { name: n, value: v }, k + m)),
            Option::None => Option::None,
        },
        Option::None => Option::None,
    }
}

/// Parses `n` items from the front of `s`.
pub open spec fn parse_items(s: Seq<u8>, n: nat) -> Option<(Seq<MessageItemV>, int)>
    decreases n,
{
    if n == 0 {
        Option::Some((Seq::empty(), 0))
    } else {
        match parse_item(s) {
            Option::Some((it, k)) => match parse_items(s.skip(k), (n - 1) as nat) {
                Option::Some((rest, m)) => Option::Some((seq![it] + rest, k + m)),
                Option::None => Option::None,
            },
            Option::None => Option::None,
        }
    }
}

/// The payload a whole byte string denotes, provided nothing follows
/// the encoded items.
pub open spec fn payload_value(s: Seq<u8>) -> Option<Seq<MessageItemV>> {
    if s.len() < 8 {
        Option::None
    } else {
        match parse_items(s.skip(8), nat_of_be(s.take(8))) {
            Option::Some((items, m)) => if 8 + m == s.len() {
                Option::Some(items)
            } else {
                Option::None
            },
            Option::None => Option::None,
        }
    }
}

/// Every stored length of every item fits its eight-byte prefix.
pub open spec fn payload_in_range(items: Seq<MessageItemV>) -> bool {
    items.len() < pow256(8) && (forall|i: int|
        0 <= i < items.len() ==> encode_utf8((#[trigger] items[i]).name).len() < pow256(8)) && (
    forall|i: int| 0 <= i < items.len() ==> value_in_range((#[trigger] items[i]).value))
}

/// Item parsing never consumes more bytes than the input holds.
pub proof fn lemma_parse_items_bounds(s: Seq<u8>, n: nat)
    ensures
        match parse_items(s, n) {
            Option::Some((items, m)) => items.len() == n && 0 <= m <= s.len(),
            Option::None => true,
        },
    decreases n,
{
    if n == 0 {
    } else {
        match parse_str_block(s) {
            Option::Some((nm, k0)) => {
                crate::codec::lemma_parse_value_at_bounds(s.skip(k0));
            },
            Option::None => {},
        }
        match parse_item(s) {
            Option::Some((it, k)) => {
                lemma_parse_items_bounds(s.skip(k), (n - 1) as nat);
            },
            Option::None => {},
        }
    }
}

/// Splits item parsing at an element boundary.
#[verifier::rlimit(100)]
#[verifier::spinoff_prover]
pub proof fn lemma_parse_items_append(s: Seq<u8>, i: nat, j: nat)
    requires
        parse_items(s, i) is Some,
    ensures
        ({
            let (vs1, c1) = parse_items(s, i)->Some_0;
            parse_items(s, i + j) == match parse_items(s.skip(c1), j) {
                Option::Some((vs2, c2)) => Option::Some((vs1 + vs2, c1 + c2)),
                Option::None => Option::None::<(Seq<MessageItemV>, int)>,
            }
        }),
    decreases i,
{
    let (vs1, c1) = parse_items(s, i)->Some_0;
    if i == 0 {
        assert(s.skip(0) =~= s);
        match parse_items(s, j) {
            Option::Some((vs2, c2)) => {
                assert(vs1 + vs2 =~= vs2);
            },
            Option::None => {},
        }
    } else {
        let (it, k) = parse_item(s)->Some_0;
        match parse_str_block(s) {
            Option::Some((nm, k0)) => {
                crate::codec::lemma_parse_value_at_bounds(s.skip(k0));
            },
            Option::None => {},
        }
        let (t1, m1) = parse_items(s.skip(k), (i - 1) as nat)->Some_0;
        lemma_parse_items_bounds(s.skip(k), (i - 1) as nat);
        lemma_parse_items_append(s.skip(k), (i - 1) as nat, j);
        assert(s.skip(k).skip(m1) =~= s.skip(k + m1));
        match parse_items(s.skip(c1), j) {
            Option::Some((vs2, c2)) => {
                assert((seq![it] + t1) + vs2 =~= seq![it] + (t1 + vs2));
            },
            Option::None => {},
        }
    }
}

/// Parsing one item inverts its encoding, whatever follows it.
pub proof fn lemma_parse_item_round_trip(it: MessageItemV, rest: Seq<u8>)
    requires
        encode_utf8(it.name).len() < pow256(8),
        value_in_range(it.value),
    ensures
        parse_item(item_block(it) + rest) == Option::Some((it, item_block(it).len() as int)),
{
    let s = item_block(it) + rest;
    assert(s =~= string_block(it.name) + (struct_bytes(it.value) + rest));
    lemma_parse_str_block_round_trip(it.name, struct_bytes(it.value) + rest);
    let k = string_block(it.name).len() as int;
    assert(s.skip(k) =~= struct_bytes(it.value) + rest);
    lemma_parse_value_round_trip(it.value, rest);
}

/// Parsing items inverts their concatenated encoding, whatever follows.
#[verifier::rlimit(100)]
#[verifier::spinoff_prover]
pub proof fn lemma_parse_items_round_trip(items: Seq<MessageItemV>, rest: Seq<u8>)
    requires
        forall|i: int|
            0 <= i < items.len() ==> encode_utf8((#[trigger] items[i]).name).len() < pow256(8),
        forall|i: int| 0 <= i < items.len() ==> value_in_range((#[trigger] items[i]).value),
    ensures
        parse_items(concat_item_blocks(items) + rest, items.len()) == Option::Some(
            (items, concat_item_blocks(items).len() as int),
        ),
    decreases items.len(),
{
    let s = concat_item_blocks(items) + rest;
    if items.len() == 0 {
        assert(concat_item_blocks(items) =~= Seq::<u8>::empty());
        assert(parse_items(s, 0) == Option::Some((Seq::<MessageItemV>::empty(), 0int)));
        assert(Seq::<MessageItemV>::empty() =~= items);
    } else {
        lemma_concat_item_blocks_first(items);
        assert(s =~= item_block(items[0]) + (concat_item_blocks(items.drop_first()) + rest));
        lemma_parse_item_round_trip(items[0], concat_item_blocks(items.drop_first()) + rest);
        let k = item_block(items[0]).len() as int;
        assert(s.skip(k) =~= concat_item_blocks(items.drop_first()) + rest);
        lemma_parse_items_round_trip(items.drop_first(), rest);
        assert(seq![items[0]] + items.drop_first() =~= items);
        assert(concat_item_blocks(items).len() == k + concat_item_blocks(
            items.drop_first(),
        ).len());
    }
}

/// The canonical round-trip law for payloads: decoding the canonical
/// byte form of a payload whose lengths fit their prefixes yields that
/// payload.
pub proof fn lemma_payload_round_trip(items: Seq<MessageItemV>)
    requires
        payload_in_range(items),
    ensures
        payload_value(payload_bytes(items)) == Option::Some(items),
{
    let s = payload_bytes(items);
    lemma_be_bytes_len(items.len(), 8);
    assert(s.take(8) =~= be_bytes(items.len(), 8));
    lemma_nat_of_be_bytes(items.len(), 8);
    assert(s.skip(8) =~= concat_item_blocks(items) + Seq::<u8>::empty());
    lemma_parse_items_round_trip(items, Seq::empty());
    assert(concat_item_blocks(items) + Seq::<u8>::empty() =~= concat_item_blocks(items));
}

/// Reads one item stored at `pos`.
pub(crate) fn parse_item_exec(b: &Vec<u8>, pos: usize) -> (r: Option<(MessageItem, usize)>)
    requires
        pos <= b@.len(),
    ensures
        match r {
            Option::Some((it, end)) => pos <= end <= b@.len() && parse_item(b@.skip(pos as int))
                == Option::Some((it@, end - pos)),
            Option::None => parse_item(b@.skip(pos as int)) is None,
        },
{
    let ghost s = b@.skip(pos as int);
    match parse_str_block_exec(b, pos) {
        Some((name, mid)) => {
            proof {
                assert(s.skip(mid - pos as int) =~= b@.skip(mid as int));
            }
            match parse_value(b, mid) {
                Some((value, end)) => Some((MessageItem { name, value }, end)),
                None => None,
            }
        },
        None => None,
    }
}

impl Payload {
    /// An empty payload.
    pub fn new() -> (r: Payload)
        ensures
            r@ == Seq::<MessageItemV>::empty(),
    {
        let r = Payload(Vec::new());
        proof {
            assert(r@ =~= Seq::<MessageItemV>::empty());
        }
        r
    }

    /// Appends a named value; a name already bound keeps its first
    /// binding, and the payload is unchanged.
    pub fn push_item(&mut self, name: String, value: Value)
        ensures
            final(self)@ == if contains_name(old(self)@, name@) {
                old(self)@
            } else {
                old(self)@.push(MessageItemV { name: name@, value: value@ })
            },
    {
        let mut i: usize = 0;
        while i < self.0.len()
            invariant
                i <= self.0@.len(),
                self == old(self),
                forall|j: int| 0 <= j < i ==> (#[trigger] self.0@[j])@.name != name@,
            decreases self.0@.len() - i,
        {
            if self.0[i].name.eq(&name) {
                proof {
                    assert(self@[i as int].name == name@);
                }
                return ;
            }
            i = i + 1;
        }
        proof {
            assert(!contains_name(self@, name@));
        }
        let ghost before = self@;
        self.0.push(MessageItem { name, value });
        proof {
            assert(final(self)@ =~= before.push(
                MessageItemV { name: final(self).0@.last().name@, value: final(self).0@.last().value@ },
            ));
        }
    }

    /// Looks a value up by name: a front-to-back scan whose first
    /// match wins, absent when no item bears the name.
    pub fn get_item(&self, name: String) -> (r: Option<Value>)
        ensures
            match r {
                Option::Some(v) => find_item(self@, name@) == Option::Some(v@),
                Option::None => find_item(self@, name@) is None,
            },
            r is None <==> !contains_name(self@, name@),
    {
        proof {
            lemma_find_item_absent(self@, name@);
            assert(self@.skip(0) =~= self@);
        }
        let mut i: usize = 0;
        while i < self.0.len()
            invariant
                i <= self.0@.len(),
                find_item(self@, name@) == find_item(self@.skip(i as int), name@),
            decreases self.0@.len() - i,
        {
            proof {
                assert(self@.skip(i as int)[0] == self@[i as int]);
                assert(self@.skip(i as int).drop_first() =~= self@.skip(i + 1));
            }
            if self.0[i].name.eq(&name) {
                return Some(self.0[i].value.clone());
            }
            i = i + 1;
        }
        proof {
            assert(self@.skip(self@.len() as int) =~= Seq::<MessageItemV>::empty());
        }
        None
    }

    /// The flat raw-byte encoding used for hashing: each value's raw
    /// bytes in insertion order, names omitted, no length prefixes.
    pub fn into_raw_data(&self) -> (r: Vec<u8>)
        ensures
            r@ == payload_raw(self@),
    {
        let mut raw_bytes_out: Vec<u8> = Vec::new();
        let mut i: usize = 0;
        while i < self.0.len()
            invariant
                i <= self.0@.len(),
                raw_bytes_out@ == payload_raw(self@.take(i as int)),
            decreases self.0@.len() - i,
        {
            proof {
                lemma_payload_raw_take(self@, i as int);
            }
            let item = &self.0[i];
            let value_raw_bytes: Vec<u8> = match &item.value {
                Value::String(value) => value.into_raw_data(),
                Value::Uint8(value) => value.into_raw_data(),
                Value::Uint16(value) => value.into_raw_data(),
                Value::Uint32(value) => value.into_raw_data(),
                Value::Uint64(value) => value.into_raw_data(),
                Value::Uint128(value) => value.into_raw_data(),
                Value::Int8(value) => value.into_raw_data(),
                Value::Int16(value) => value.into_raw_data(),
                Value::Int32(value) => value.into_raw_data(),
                Value::Int64(value) => value.into_raw_data(),
                Value::VecString(value) => value.into_raw_data(),
                Value::VecUint8(value) => {
                    proof {
                        assert(value.deep_view() =~= value@);
                    }
                    value.into_raw_data()
                },
                Value::VecUint16(value) => {
                    proof {
                        assert(value.deep_view() =~= value@);
                    }
                    value.into_raw_data()
                },
                Value::VecUint32(value) => {
                    proof {
                        assert(value.deep_view() =~= value@);
                    }
                    value.into_raw_data()
                },
                Value::VecUint64(value) => {
                    proof {
                        assert(value.deep_view() =~= value@);
                    }
                    value.into_raw_data()
                },
                Value::VecUint128(value) => {
                    proof {
                        assert(value.deep_view() =~= value@);
                    }
                    value.into_raw_data()
                },
                Value::VecInt8(value) => {
                    proof {
                        assert(value.deep_view() =~= value@);
                    }
                    value.into_raw_data()
                },
                Value::VecInt16(value) => {
                    proof {
                        assert(value.deep_view() =~= value@);
                    }
                    value.into_raw_data()
                },
                Value::VecInt32(value) => {
                    proof {
                        assert(value.deep_view() =~= value@);
                    }
                    value.into_raw_data()
                },
                Value::VecInt64(value) => {
                    proof {
                        assert(value.deep_view() =~= value@);
                    }
                    value.into_raw_data()
                },
                Value::Address(value) => value.into_raw_data(),
            };
            proof {
                assert(value_raw_bytes@ =~= raw_bytes(self@[i as int].value));
            }
            push_bytes(&mut raw_bytes_out, value_raw_bytes.as_slice());
            i = i + 1;
        }
        proof {
            assert(self@.take(self@.len() as int) =~= self@);
        }
        raw_bytes_out
    }

    /// Encodes the payload in its canonical byte form: an eight-byte
    /// item count, then each name and value.
    pub fn to_bytes(&self) -> (r: Vec<u8>)
        ensures
            r@ == payload_bytes(self@),
    {
        proof {
            lemma_pow256_vals();
        }
        let mut out: Vec<u8> = Vec::new();
        push_be(&mut out, self.0.len() as u128, 8);
        let mut i: usize = 0;
        while i < self.0.len()
            invariant
                i <= self.0@.len(),
                out@ == be_bytes(self@.len(), 8) + concat_item_blocks(self@.take(i as int)),
            decreases self.0@.len() - i,
        {
            proof {
                lemma_concat_item_blocks_take(self@, i as int);
            }
            let item = &self.0[i];
            crate::codec::push_str_block(&mut out, item.name.as_str());
            let enc = encode_structural(&item.value);
            push_bytes(&mut out, enc.as_slice());
            proof {
                assert(out@ =~= be_bytes(self@.len(), 8) + concat_item_blocks(
                    self@.take(i + 1),
                ));
            }
            i = i + 1;
        }
        proof {
            assert(self@.take(self@.len() as int) =~= self@);
        }
        out
    }

    /// Decodes a payload from its canonical byte form, requiring that
    /// the bytes hold exactly one payload and nothing more.
    #[verifier::rlimit(100)]
    #[verifier::spinoff_prover]
    pub fn from_bytes(b: &Vec<u8>) -> (r: Option<Payload>)
        ensures
            match r {
                Option::Some(p) => payload_value(b@) == Option::Some(p@),
                Option::None => payload_value(b@) is None,
            },
    {
        let blen = b.len();
        if blen < 8 {
            return None;
        }
        let n = read_be(b, 0, 8);
        proof {
            assert(b@.take(8) =~= b@.subrange(0, 8));
        }
        let ghost s8 = b@.skip(8);
        let mut items: Vec<MessageItem> = Vec::new();
        let mut cur: usize = 8;
        let mut i: u128 = 0;
        while i < n
            invariant
                8 <= cur <= blen,
                blen == b@.len(),
                i <= n,
                s8 == b@.skip(8),
                n as nat == nat_of_be(b@.take(8)),
                parse_items(s8, i as nat) == Option::Some((items.deep_view(), cur - 8int)),
            decreases n - i,
        {
            match parse_item_exec(b, cur) {
                Some((it, end)) => {
                    let ghost dv = items.deep_view();
                    let ghost itv = it@;
                    proof {
                        lemma_parse_items_append(s8, i as nat, 1);
                        let tail = s8.skip(cur - 8int);
                        assert(tail =~= b@.skip(cur as int));
                        let k = end - cur as int;
                        assert(parse_items(tail.skip(k), 0) == Option::Some(
                            (Seq::<MessageItemV>::empty(), 0int),
                        ));
                        assert(seq![itv] + Seq::<MessageItemV>::empty() =~= seq![itv]);
                        assert(parse_items(tail, 1) == Option::Some((seq![itv], k)));
                    }
                    items.push(it);
                    proof {
                        assert(items.deep_view() =~= dv + seq![itv]);
                    }
                    cur = end;
                    i = i + 1;
                },
                None => {
                    proof {
                        lemma_parse_items_append(s8, i as nat, (n - i) as nat);
                        let tail = s8.skip(cur - 8int);
                        assert(tail =~= b@.skip(cur as int));
                        assert(parse_item(tail) is None);
                        assert(parse_items(tail, (n - i) as nat) is None);
                        assert(i as nat + (n - i) as nat == n as nat);
                        assert(parse_items(s8, n as nat) is None);
                        assert(b@.take(8) =~= b@.subrange(0, 8));
                        assert(nat_of_be(b@.take(8)) == n as nat);
                        assert(payload_value(b@) is None);
                    }
                    return None;
                },
            }
        }
        if cur != blen {
            return None;
        }
        let r = Payload(items);
        Some(r)
    }
}

} // verus!
