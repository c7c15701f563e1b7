//! The tagged-union scalar/vector type carried inside payloads, the
//! checked downcast from it, and its flat raw-byte encoding.
use vstd::prelude::*;
use vstd::slice::slice_to_vec;
use vstd::utf8::encode_utf8;

use crate::encoding::be_bytes;
use crate::encoding::lemma_pow256_vals;
use crate::encoding::push_be;
use crate::encoding::push_bytes;

verus! {

/// The unsigned two's-complement carrier of a signed byte.
pub open spec fn u8_of_i8(x: i8) -> u8 {
    if x >= 0 {
        x as u8
    } else {
        (x + 0x100) as u8
    }
}

pub open spec fn i8_of_u8(x: u8) -> i8 {
    if x < 0x80 {
        x as i8
    } else {
        (x - 0x100) as i8
    }
}

pub open spec fn u16_of_i16(x: i16) -> u16 {
    if x >= 0 {
        x as u16
    } else {
        (x + 0x10000) as u16
    }
}

pub open spec fn i16_of_u16(x: u16) -> i16 {
    if x < 0x8000 {
        x as i16
    } else {
        (x - 0x10000) as i16
    }
}

pub open spec fn u32_of_i32(x: i32) -> u32 {
    if x >= 0 {
        x as u32
    } else {
        (x + 0x100000000) as u32
    }
}

pub open spec fn i32_of_u32(x: u32) -> i32 {
    if x < 0x80000000 {
        x as i32
    } else {
        (x - 0x100000000) as i32
    }
}

pub open spec fn u64_of_i64(x: i64) -> u64 {
    if x >= 0 {
        x as u64
    } else {
        (x + 0x10000000000000000) as u64
    }
}

pub open spec fn i64_of_u64(x: u64) -> i64 {
    if x < 0x8000000000000000 {
        x as i64
    } else {
        (x - 0x10000000000000000) as i64
    }
}

pub(crate) fn i8_to_u8(x: i8) -> (r: u8)
    ensures
        r == u8_of_i8(x),
{
    if x >= 0 {
        x as u8
    } else {
        ((x as i16) + 0x100) as u8
    }
}

pub(crate) fn u8_to_i8(x: u8) -> (r: i8)
    ensures
        r == i8_of_u8(x),
{
    if x < 0x80 {
        x as i8
    } else {
        ((x as i16) - 0x100) as i8
    }
}

pub(crate) fn i16_to_u16(x: i16) -> (r: u16)
    ensures
        r == u16_of_i16(x),
{
    if x >= 0 {
        x as u16
    } else {
        ((x as i32) + 0x10000) as u16
    }
}

pub(crate) fn u16_to_i16(x: u16) -> (r: i16)
    ensures
        r == i16_of_u16(x),
{
    if x < 0x8000 {
        x as i16
    } else {
        ((x as i32) - 0x10000) as i16
    }
}

pub(crate) fn i32_to_u32(x: i32) -> (r: u32)
    ensures
        r == u32_of_i32(x),
{
    if x >= 0 {
        x as u32
    } else {
        ((x as i64) + 0x100000000) as u32
    }
}

pub(crate) fn u32_to_i32(x: u32) -> (r: i32)
    ensures
        r == i32_of_u32(x),
{
    if x < 0x80000000 {
        x as i32
    } else {
        ((x as i64) - 0x100000000) as i32
    }
}

pub(crate) fn i64_to_u64(x: i64) -> (r: u64)
    ensures
        r == u64_of_i64(x),
{
    if x >= 0 {
        x as u64
    } else {
        ((x as i128) + 0x10000000000000000) as u64
    }
}

pub(crate) fn u64_to_i64(x: u64) -> (r: i64)
    ensures
        r == i64_of_u64(x),
{
    if x < 0x8000000000000000 {
        x as i64
    } else {
        ((x as i128) - 0x10000000000000000) as i64
    }
}

/// An opaque identity string together with a one-byte address-kind
/// discriminator that distinguishes address encodings across chains.
#[derive(Debug, PartialEq)]
pub struct Address(String, u8);

/// Mathematical model of an [`Address`].
pub struct AddressV {
    pub address: Seq<char>,
    pub kind: u8,
}

impl View for Address {
    type V = AddressV;

    closed spec fn view(&self) -> AddressV {
        AddressV { address: self.0@, kind: self.1 }
    }
}

impl DeepView for Address {
    type V = AddressV;

    open spec fn deep_view(&self) -> AddressV {
        self.view()
    }
}

impl Clone for Address {
    fn clone(&self) -> (r: Self)
        ensures
            r@ == self@,
    {
        Address(self.0.clone(), self.1)
    }
}

impl Address {
    pub fn new(address: String, address_type: u8) -> (r: Self)
        ensures
            r@ == (AddressV { address: address@, kind: address_type }),
    {
        Address(address, address_type)
    }

    pub fn get(&self) -> (r: String)
        ensures
            r@ == self@.address,
    {
        self.0.clone()
    }

    pub fn get_type(&self) -> (r: u8)
        ensures
            r == self@.kind,
    {
        self.1
    }
}

/// One value carried by a message item: a UTF-8 string, a signed or
/// unsigned integer, an address, or a homogeneous vector of one of the
/// scalar kinds.
#[derive(Debug, PartialEq)]
pub enum Value {
    String(String),
    Uint8(u8),
    Uint16(u16),
    Uint32(u32),
    Uint64(u64),
    Uint128(u128),
    Int8(i8),
    Int16(i16),
    Int32(i32),
    Int64(i64),
    VecString(Vec<String>),
    VecUint8(Vec<u8>),
    VecUint16(Vec<u16>),
    VecUint32(Vec<u32>),
    VecUint64(Vec<u64>),
    VecUint128(Vec<u128>),
    VecInt8(Vec<i8>),
    VecInt16(Vec<i16>),
    VecInt32(Vec<i32>),
    VecInt64(Vec<i64>),
    Address(Address),
}

/// Mathematical model of a [`Value`].
pub enum ValueV {
    String(Seq<char>),
    Uint8(u8),
    Uint16(u16),
    Uint32(u32),
    Uint64(u64),
    Uint128(u128),
    Int8(i8),
    Int16(i16),
    Int32(i32),
    Int64(i64),
    VecString(Seq<Seq<char>>),
    VecUint8(Seq<u8>),
    VecUint16(Seq<u16>),
    VecUint32(Seq<u32>),
    VecUint64(Seq<u64>),
    VecUint128(Seq<u128>),
    VecInt8(Seq<i8>),
    VecInt16(Seq<i16>),
    VecInt32(Seq<i32>),
    VecInt64(Seq<i64>),
    Address(AddressV),
}

impl View for Value {
    type V = ValueV;

    open spec fn view(&self) -> ValueV {
        match self {
            Value::String(s) => ValueV::String(s@),
            Value::Uint8(x) => ValueV::Uint8(*x),
            Value::Uint16(x) => ValueV::Uint16(*x),
            Value::Uint32(x) => ValueV::Uint32(*x),
            Value::Uint64(x) => ValueV::Uint64(*x),
            Value::Uint128(x) => ValueV::Uint128(*x),
            Value::Int8(x) => ValueV::Int8(*x),
            Value::Int16(x) => ValueV::Int16(*x),
            Value::Int32(x) => ValueV::Int32(*x),
            Value::Int64(x) => ValueV::Int64(*x),
            Value::VecString(v) => ValueV::VecString(v.deep_view()),
            Value::VecUint8(v) => ValueV::VecUint8(v@),
            Value::VecUint16(v) => ValueV::VecUint16(v@),
            Value::VecUint32(v) => ValueV::VecUint32(v@),
            Value::VecUint64(v) => ValueV::VecUint64(v@),
            Value::VecUint128(v) => ValueV::VecUint128(v@),
            Value::VecInt8(v) => ValueV::VecInt8(v@),
            Value::VecInt16(v) => ValueV::VecInt16(v@),
            Value::VecInt32(v) => ValueV::VecInt32(v@),
            Value::VecInt64(v) => ValueV::VecInt64(v@),
            Value::Address(a) => ValueV::Address(a@),
        }
    }
}

impl DeepView for Value {
    type V = ValueV;

    open spec fn deep_view(&self) -> ValueV {
        self.view()
    }
}

/// Copies a byte vector.
pub(crate) fn clone_bytes(v: &Vec<u8>) -> (r: Vec<u8>)
    ensures
        r@ == v@,
{
    slice_to_vec(v.as_slice())
}

/// Copies a vector of strings, keeping every element's characters.
pub(crate) fn clone_string_vec(v: &Vec<String>) -> (r: Vec<String>)
    ensures
        r.deep_view() == v.deep_view(),
{
    let mut r: Vec<String> = Vec::new();
    let mut i: usize = 0;
    while i < v.len()
        invariant
            i <= v@.len(),
            r@.len() == i,
            forall|j: int| 0 <= j < i ==> r@[j]@ == v@[j]@,
        decreases v@.len() - i,
    {
        r.push(v[i].clone());
        i = i + 1;
    }
    assert(r.deep_view() =~= v.deep_view());
    r
}

impl Clone for Value {
    fn clone(&self) -> (r: Self)
        ensures
            r@ == self@,
    {
        match self {
            Value::String(s) => Value::String(s.clone()),
            Value::Uint8(x) => Value::Uint8(*x),
            Value::Uint16(x) => Value::Uint16(*x),
            Value::Uint32(x) => Value::Uint32(*x),
            Value::Uint64(x) => Value::Uint64(*x),
            Value::Uint128(x) => Value::Uint128(*x),
            Value::Int8(x) => Value::Int8(*x),
            Value::Int16(x) => Value::Int16(*x),
            Value::Int32(x) => Value::Int32(*x),
            Value::Int64(x) => Value::Int64(*x),
            Value::VecString(v) => Value::VecString(clone_string_vec(v)),
            Value::VecUint8(v) => Value::VecUint8(slice_to_vec(v.as_slice())),
            Value::VecUint16(v) => Value::VecUint16(slice_to_vec(v.as_slice())),
            Value::VecUint32(v) => Value::VecUint32(slice_to_vec(v.as_slice())),
            Value::VecUint64(v) => Value::VecUint64(slice_to_vec(v.as_slice())),
            Value::VecUint128(v) => Value::VecUint128(slice_to_vec(v.as_slice())),
            Value::VecInt8(v) => Value::VecInt8(slice_to_vec(v.as_slice())),
            Value::VecInt16(v) => Value::VecInt16(slice_to_vec(v.as_slice())),
            Value::VecInt32(v) => Value::VecInt32(slice_to_vec(v.as_slice())),
            Value::VecInt64(v) => Value::VecInt64(slice_to_vec(v.as_slice())),
            Value::Address(a) => Value::Address(a.clone()),
        }
    }
}

/// Concatenation of the `w`-byte big-endian encodings of a sequence of
/// numbers, in order, with no separator and no length prefix.
pub open spec fn concat_be(ns: Seq<u128>, w: nat) -> Seq<u8>
    decreases ns.len(),
{
    if ns.len() == 0 {
        Seq::empty()
    } else {
        concat_be(ns.drop_last(), w) + be_bytes(ns.last() as nat, w)
    }
}

/// Concatenation of the UTF-8 encodings of a sequence of strings, in
/// order, with no separator and no length prefix.
pub open spec fn concat_utf8(vs: Seq<Seq<char>>) -> Seq<u8>
    decreases vs.len(),
{
    if vs.len() == 0 {
        Seq::empty()
    } else {
        concat_utf8(vs.drop_last()) + encode_utf8(vs.last())
    }
}

/// The flat raw-byte encoding of a value: integers big-endian at their
/// fixed width, strings and addresses as bare UTF-8, vectors as the
/// concatenation of their elements' encodings.
pub open spec fn raw_bytes(v: ValueV) -> Seq<u8> {
    match v {
        ValueV::String(s) => encode_utf8(s),
        ValueV::Uint8(x) => be_bytes(x as nat, 1),
        ValueV::Uint16(x) => be_bytes(x as nat, 2),
        ValueV::Uint32(x) => be_bytes(x as nat, 4),
        ValueV::Uint64(x) => be_bytes(x as nat, 8),
        ValueV::Uint128(x) => be_bytes(x as nat, 16),
        ValueV::Int8(x) => be_bytes(u8_of_i8(x) as nat, 1),
        ValueV::Int16(x) => be_bytes(u16_of_i16(x) as nat, 2),
        ValueV::Int32(x) => be_bytes(u32_of_i32(x) as nat, 4),
        ValueV::Int64(x) => be_bytes(u64_of_i64(x) as nat, 8),
        ValueV::VecString(vs) => concat_utf8(vs),
        ValueV::VecUint8(s) => concat_be(s.map_values(|x: u8| x as u128), 1),
        ValueV::VecUint16(s) => concat_be(s.map_values(|x: u16| x as u128), 2),
        ValueV::VecUint32(s) => concat_be(s.map_values(|x: u32| x as u128), 4),
        ValueV::VecUint64(s) => concat_be(s.map_values(|x: u64| x as u128), 8),
        ValueV::VecUint128(s) => concat_be(s, 16),
        ValueV::VecInt8(s) => concat_be(s.map_values(|x: i8| u8_of_i8(x) as u128), 1),
        ValueV::VecInt16(s) => concat_be(s.map_values(|x: i16| u16_of_i16(x) as u128), 2),
        ValueV::VecInt32(s) => concat_be(s.map_values(|x: i32| u32_of_i32(x) as u128), 4),
        ValueV::VecInt64(s) => concat_be(s.map_values(|x: i64| u64_of_i64(x) as u128), 8),
        ValueV::Address(a) => encode_utf8(a.address),
    }
}

/// Unrolls one step of [`concat_be`] over a prefix.
pub proof fn lemma_concat_be_take(ns: Seq<u128>, w: nat, i: int)
    requires
        0 <= i < ns.len(),
    ensures
        concat_be(ns.take(i + 1), w) == concat_be(ns.take(i), w) + be_bytes(ns[i] as nat, w),
{
    assert(ns.take(i + 1).drop_last() =~= ns.take(i));
}

/// Unrolls one step of [`concat_utf8`] over a prefix.
pub proof fn lemma_concat_utf8_take(vs: Seq<Seq<char>>, i: int)
    requires
        0 <= i < vs.len(),
    ensures
        concat_utf8(vs.take(i + 1)) == concat_utf8(vs.take(i)) + encode_utf8(vs[i]),
{
    assert(vs.take(i + 1).drop_last() =~= vs.take(i));
}

/// The UTF-8 bytes of a string, as a fresh vector.
pub(crate) fn utf8_vec(s: &str) -> (r: Vec<u8>)
    ensures
        r@ == encode_utf8(s@),
{
    let mut r: Vec<u8> = Vec::new();
    push_bytes(&mut r, s.as_bytes());
    assert(r@ =~= encode_utf8(s@));
    r
}

/// Appends the one-byte encodings of every element of `xs` to `out`.
pub(crate) fn push_be_all_u8(out: &mut Vec<u8>, xs: &Vec<u8>)
    ensures
        final(out)@ == old(out)@ + concat_be(xs@.map_values(|x: u8| x as u128), 1),
{
    let ghost m = xs@.map_values(|x: u8| x as u128);
    let mut i: usize = 0;
    while i < xs.len()
        invariant
            i <= xs@.len(),
            m == xs@.map_values(|x: u8| x as u128),
            out@ == old(out)@ + concat_be(m.take(i as int), 1),
        decreases xs@.len() - i,
    {
        proof {
            lemma_pow256_vals();
            lemma_concat_be_take(m, 1, i as int);
        }
        push_be(out, xs[i] as u128, 1);
        i = i + 1;
    }
    assert(m.take(xs@.len() as int) =~= m);
}

/// Appends the two-byte encodings of every element of `xs` to `out`.
pub(crate) fn push_be_all_u16(out: &mut Vec<u8>, xs: &Vec<u16>)
    ensures
        final(out)@ == old(out)@ + concat_be(xs@.map_values(|x: u16| x as u128), 2),
{
    let ghost m = xs@.map_values(|x: u16| x as u128);
    let mut i: usize = 0;
    while i < xs.len()
        invariant
            i <= xs@.len(),
            m == xs@.map_values(|x: u16| x as u128),
            out@ == old(out)@ + concat_be(m.take(i as int), 2),
        decreases xs@.len() - i,
    {
        proof {
            lemma_pow256_vals();
            lemma_concat_be_take(m, 2, i as int);
        }
        push_be(out, xs[i] as u128, 2);
        i = i + 1;
    }
    assert(m.take(xs@.len() as int) =~= m);
}

/// Appends the four-byte encodings of every element of `xs` to `out`.
pub(crate) fn push_be_all_u32(out: &mut Vec<u8>, xs: &Vec<u32>)
    ensures
        final(out)@ == old(out)@ + concat_be(xs@.map_values(|x: u32| x as u128), 4),
{
    let ghost m = xs@.map_values(|x: u32| x as u128);
    let mut i: usize = 0;
    while i < xs.len()
        invariant
            i <= xs@.len(),
            m == xs@.map_values(|x: u32| x as u128),
            out@ == old(out)@ + concat_be(m.take(i as int), 4),
        decreases xs@.len() - i,
    {
        proof {
            lemma_pow256_vals();
            lemma_concat_be_take(m, 4, i as int);
        }
        push_be(out, xs[i] as u128, 4);
        i = i + 1;
    }
    assert(m.take(xs@.len() as int) =~= m);
}

/// Appends the eight-byte encodings of every element of `xs` to `out`.
pub(crate) fn push_be_all_u64(out: &mut Vec<u8>, xs: &Vec<u64>)
    ensures
        final(out)@ == old(out)@ + concat_be(xs@.map_values(|x: u64| x as u128), 8),
{
    let ghost m = xs@.map_values(|x: u64| x as u128);
    let mut i: usize = 0;
    while i < xs.len()
        invariant
            i <= xs@.len(),
            m == xs@.map_values(|x: u64| x as u128),
            out@ == old(out)@ + concat_be(m.take(i as int), 8),
        decreases xs@.len() - i,
    {
        proof {
            lemma_pow256_vals();
            lemma_concat_be_take(m, 8, i as int);
        }
        push_be(out, xs[i] as u128, 8);
        i = i + 1;
    }
    assert(m.take(xs@.len() as int) =~= m);
}

/// Appends the sixteen-byte encodings of every element of `xs` to `out`.
pub(crate) fn push_be_all_u128(out: &mut Vec<u8>, xs: &Vec<u128>)
    ensures
        final(out)@ == old(out)@ + concat_be(xs@, 16),
{
    let mut i: usize = 0;
    while i < xs.len()
        invariant
            i <= xs@.len(),
            out@ == old(out)@ + concat_be(xs@.take(i as int), 16),
        decreases xs@.len() - i,
    {
        proof {
            lemma_pow256_vals();
            lemma_concat_be_take(xs@, 16, i as int);
        }
        push_be(out, xs[i], 16);
        i = i + 1;
    }
    assert(xs@.take(xs@.len() as int) =~= xs@);
}

/// Appends the one-byte encodings of every element of `xs` to `out`.
pub(crate) fn push_be_all_i8(out: &mut Vec<u8>, xs: &Vec<i8>)
    ensures
        final(out)@ == old(out)@ + concat_be(xs@.map_values(|x: i8| u8_of_i8(x) as u128), 1),
{
    let ghost m = xs@.map_values(|x: i8| u8_of_i8(x) as u128);
    let mut i: usize = 0;
    while i < xs.len()
        invariant
            i <= xs@.len(),
            m == xs@.map_values(|x: i8| u8_of_i8(x) as u128),
            out@ == old(out)@ + concat_be(m.take(i as int), 1),
        decreases xs@.len() - i,
    {
        proof {
            lemma_pow256_vals();
            lemma_concat_be_take(m, 1, i as int);
        }
        let u = i8_to_u8(xs[i]);
        push_be(out, u as u128, 1);
        i = i + 1;
    }
    assert(m.take(xs@.len() as int) =~= m);
}

/// Appends the two-byte encodings of every element of `xs` to `out`.
pub(crate) fn push_be_all_i16(out: &mut Vec<u8>, xs: &Vec<i16>)
    ensures
        final(out)@ == old(out)@ + concat_be(xs@.map_values(|x: i16| u16_of_i16(x) as u128), 2),
{
    let ghost m = xs@.map_values(|x: i16| u16_of_i16(x) as u128);
    let mut i: usize = 0;
    while i < xs.len()
        invariant
            i <= xs@.len(),
            m == xs@.map_values(|x: i16| u16_of_i16(x) as u128),
            out@ == old(out)@ + concat_be(m.take(i as int), 2),
        decreases xs@.len() - i,
    {
        proof {
            lemma_pow256_vals();
            lemma_concat_be_take(m, 2, i as int);
        }
        let u = i16_to_u16(xs[i]);
        push_be(out, u as u128, 2);
        i = i + 1;
    }
    assert(m.take(xs@.len() as int) =~= m);
}

/// Appends the four-byte encodings of every element of `xs` to `out`.
pub(crate) fn push_be_all_i32(out: &mut Vec<u8>, xs: &Vec<i32>)
    ensures
        final(out)@ == old(out)@ + concat_be(xs@.map_values(|x: i32| u32_of_i32(x) as u128), 4),
{
    let ghost m = xs@.map_values(|x: i32| u32_of_i32(x) as u128);
    let mut i: usize = 0;
    while i < xs.len()
        invariant
            i <= xs@.len(),
            m == xs@.map_values(|x: i32| u32_of_i32(x) as u128),
            out@ == old(out)@ + concat_be(m.take(i as int), 4),
        decreases xs@.len() - i,
    {
        proof {
            lemma_pow256_vals();
            lemma_concat_be_take(m, 4, i as int);
        }
        let u = i32_to_u32(xs[i]);
        push_be(out, u as u128, 4);
        i = i + 1;
    }
    assert(m.take(xs@.len() as int) =~= m);
}

/// Appends the eight-byte encodings of every element of `xs` to `out`.
pub(crate) fn push_be_all_i64(out: &mut Vec<u8>, xs: &Vec<i64>)
    ensures
        final(out)@ == old(out)@ + concat_be(xs@.map_values(|x: i64| u64_of_i64(x) as u128), 8),
{
    let ghost m = xs@.map_values(|x: i64| u64_of_i64(x) as u128);
    let mut i: usize = 0;
    while i < xs.len()
        invariant
            i <= xs@.len(),
            m == xs@.map_values(|x: i64| u64_of_i64(x) as u128),
            out@ == old(out)@ + concat_be(m.take(i as int), 8),
        decreases xs@.len() - i,
    {
        proof {
            lemma_pow256_vals();
            lemma_concat_be_take(m, 8, i as int);
        }
        let u = i64_to_u64(xs[i]);
        push_be(out, u as u128, 8);
        i = i + 1;
    }
    assert(m.take(xs@.len() as int) =~= m);
}

/// Appends the UTF-8 bytes of every element of `vs` to `out`.
pub(crate) fn push_utf8_all(out: &mut Vec<u8>, vs: &Vec<String>)
    ensures
        final(out)@ == old(out)@ + concat_utf8(vs.deep_view()),
{
    let ghost m = vs.deep_view();
    let mut i: usize = 0;
    while i < vs.len()
        invariant
            i <= vs@.len(),
            m == vs.deep_view(),
            m.len() == vs@.len(),
            out@ == old(out)@ + concat_utf8(m.take(i as int)),
        decreases vs@.len() - i,
    {
        proof {
            lemma_concat_utf8_take(m, i as int);
            assert(m[i as int] == vs@[i as int]@);
        }
        push_bytes(out, vs[i].as_str().as_bytes());
        i = i + 1;
    }
    assert(m.take(vs@.len() as int) =~= m);
}

/// A concrete type a [`Value`] can be downcast to: the checked downcast
/// itself and the type's flat raw-byte encoding.
pub trait ValueType: Sized + DeepView {
    /// The content carried by `v` when its tag matches this type.
    spec fn extract_spec(v: ValueV) -> Option<Self::V>;

    /// The flat raw-byte encoding of a value of this type.
    spec fn raw_spec(v: Self::V) -> Seq<u8>;

    /// The checked downcast: the carried content on a tag match, and
    /// absent otherwise.
    fn get_value(type_value: &Value) -> (r: Option<Self>)
        ensures
            r.deep_view() == Self::extract_spec(type_value@),
    ;

    /// The flat raw-byte encoding used for hashing and signing.
    fn into_raw_data(&self) -> (r: Vec<u8>)
        ensures
            r@ == Self::raw_spec(self.deep_view()),
    ;
}

impl ValueType for String {
    open spec fn extract_spec(v: ValueV) -> Option<Seq<char>> {
        match v {
            ValueV::String(s) => Option::Some(s),
            _ => Option::None,
        }
    }

    open spec fn raw_spec(v: Seq<char>) -> Seq<u8> {
        encode_utf8(v)
    }

    fn get_value(type_value: &Value) -> (r: Option<Self>) {
        match type_value {
            Value::String(val) => Some(val.clone()),
            _ => None,
        }
    }

    fn into_raw_data(&self) -> (r: Vec<u8>) {
        utf8_vec(self.as_str())
    }
}

impl ValueType for u8 {
    open spec fn extract_spec(v: ValueV) -> Option<u8> {
        match v {
            ValueV::Uint8(x) => Option::Some(x),
            _ => Option::None,
        }
    }

    open spec fn raw_spec(v: u8) -> Seq<u8> {
        be_bytes(v as nat, 1)
    }

    fn get_value(type_value: &Value) -> (r: Option<Self>) {
        match type_value {
            Value::Uint8(x) => Some(*x),
            _ => None,
        }
    }

    fn into_raw_data(&self) -> (r: Vec<u8>) {
        proof {
            lemma_pow256_vals();
        }
        let mut out: Vec<u8> = Vec::new();
        push_be(&mut out, *self as u128, 1);
        assert(out@ =~= be_bytes(*self as nat, 1));
        out
    }
}

impl ValueType for u16 {
    open spec fn extract_spec(v: ValueV) -> Option<u16> {
        match v {
            ValueV::Uint16(x) => Option::Some(x),
            _ => Option::None,
        }
    }

    open spec fn raw_spec(v: u16) -> Seq<u8> {
        be_bytes(v as nat, 2)
    }

    fn get_value(type_value: &Value) -> (r: Option<Self>) {
        match type_value {
            Value::Uint16(x) => Some(*x),
            _ => None,
        }
    }

    fn into_raw_data(&self) -> (r: Vec<u8>) {
        proof {
            lemma_pow256_vals();
        }
        let mut out: Vec<u8> = Vec::new();
        push_be(&mut out, *self as u128, 2);
        assert(out@ =~= be_bytes(*self as nat, 2));
        out
    }
}

impl ValueType for u32 {
    open spec fn extract_spec(v: ValueV) -> Option<u32> {
        match v {
            ValueV::Uint32(x) => Option::Some(x),
            _ => Option::None,
        }
    }

    open spec fn raw_spec(v: u32) -> Seq<u8> {
        be_bytes(v as nat, 4)
    }

    fn get_value(type_value: &Value) -> (r: Option<Self>) {
        match type_value {
            Value::Uint32(x) => Some(*x),
            _ => None,
        }
    }

    fn into_raw_data(&self) -> (r: Vec<u8>) {
        proof {
            lemma_pow256_vals();
        }
        let mut out: Vec<u8> = Vec::new();
        push_be(&mut out, *self as u128, 4);
        assert(out@ =~= be_bytes(*self as nat, 4));
        out
    }
}

impl ValueType for u64 {
    open spec fn extract_spec(v: ValueV) -> Option<u64> {
        match v {
            ValueV::Uint64(x) => Option::Some(x),
            _ => Option::None,
        }
    }

    open spec fn raw_spec(v: u64) -> Seq<u8> {
        be_bytes(v as nat, 8)
    }

    fn get_value(type_value: &Value) -> (r: Option<Self>) {
        match type_value {
            Value::Uint64(x) => Some(*x),
            _ => None,
        }
    }

    fn into_raw_data(&self) -> (r: Vec<u8>) {
        proof {
            lemma_pow256_vals();
        }
        let mut out: Vec<u8> = Vec::new();
        push_be(&mut out, *self as u128, 8);
        assert(out@ =~= be_bytes(*self as nat, 8));
        out
    }
}

impl ValueType for u128 {
    open spec fn extract_spec(v: ValueV) -> Option<u128> {
        match v {
            ValueV::Uint128(x) => Option::Some(x),
            _ => Option::None,
        }
    }

    open spec fn raw_spec(v: u128) -> Seq<u8> {
        be_bytes(v as nat, 16)
    }

    fn get_value(type_value: &Value) -> (r: Option<Self>) {
        match type_value {
            Value::Uint128(x) => Some(*x),
            _ => None,
        }
    }

    fn into_raw_data(&self) -> (r: Vec<u8>) {
        proof {
            lemma_pow256_vals();
        }
        let mut out: Vec<u8> = Vec::new();
        push_be(&mut out, *self, 16);
        assert(out@ =~= be_bytes(*self as nat, 16));
        out
    }
}

impl ValueType for i8 {
    open spec fn extract_spec(v: ValueV) -> Option<i8> {
        match v {
            ValueV::Int8(x) => Option::Some(x),
            _ => Option::None,
        }
    }

    open spec fn raw_spec(v: i8) -> Seq<u8> {
        be_bytes(u8_of_i8(v) as nat, 1)
    }

    fn get_value(type_value: &Value) -> (r: Option<Self>) {
        match type_value {
            Value::Int8(x) => Some(*x),
            _ => None,
        }
    }

    fn into_raw_data(&self) -> (r: Vec<u8>) {
        proof {
            lemma_pow256_vals();
        }
        let mut out: Vec<u8> = Vec::new();
        let u = i8_to_u8(*self);
        push_be(&mut out, u as u128, 1);
        assert(out@ =~= be_bytes(u8_of_i8(*self) as nat, 1));
        out
    }
}

impl ValueType for i16 {
    open spec fn extract_spec(v: ValueV) -> Option<i16> {
        match v {
            ValueV::Int16(x) => Option::Some(x),
            _ => Option::None,
        }
    }

    open spec fn raw_spec(v: i16) -> Seq<u8> {
        be_bytes(u16_of_i16(v) as nat, 2)
    }

    fn get_value(type_value: &Value) -> (r: Option<Self>) {
        match type_value {
            Value::Int16(x) => Some(*x),
            _ => None,
        }
    }

    fn into_raw_data(&self) -> (r: Vec<u8>) {
        proof {
            lemma_pow256_vals();
        }
        let mut out: Vec<u8> = Vec::new();
        let u = i16_to_u16(*self);
        push_be(&mut out, u as u128, 2);
        assert(out@ =~= be_bytes(u16_of_i16(*self) as nat, 2));
        out
    }
}

impl ValueType for i32 {
    open spec fn extract_spec(v: ValueV) -> Option<i32> {
        match v {
            ValueV::Int32(x) => Option::Some(x),
            _ => Option::None,
        }
    }

    open spec fn raw_spec(v: i32) -> Seq<u8> {
        be_bytes(u32_of_i32(v) as nat, 4)
    }

    fn get_value(type_value: &Value) -> (r: Option<Self>) {
        match type_value {
            Value::Int32(x) => Some(*x),
            _ => None,
        }
    }

    fn into_raw_data(&self) -> (r: Vec<u8>) {
        proof {
            lemma_pow256_vals();
        }
        let mut out: Vec<u8> = Vec::new();
        let u = i32_to_u32(*self);
        push_be(&mut out, u as u128, 4);
        assert(out@ =~= be_bytes(u32_of_i32(*self) as nat, 4));
        out
    }
}

impl ValueType for i64 {
    open spec fn extract_spec(v: ValueV) -> Option<i64> {
        match v {
            ValueV::Int64(x) => Option::Some(x),
            _ => Option::None,
        }
    }

    open spec fn raw_spec(v: i64) -> Seq<u8> {
        be_bytes(u64_of_i64(v) as nat, 8)
    }

    fn get_value(type_value: &Value) -> (r: Option<Self>) {
        match type_value {
            Value::Int64(x) => Some(*x),
            _ => None,
        }
    }

    fn into_raw_data(&self) -> (r: Vec<u8>) {
        proof {
            lemma_pow256_vals();
        }
        let mut out: Vec<u8> = Vec::new();
        let u = i64_to_u64(*self);
        push_be(&mut out, u as u128, 8);
        assert(out@ =~= be_bytes(u64_of_i64(*self) as nat, 8));
        out
    }
}

impl ValueType for Vec<String> {
    open spec fn extract_spec(v: ValueV) -> Option<Seq<Seq<char>>> {
        match v {
            ValueV::VecString(s) => Option::Some(s),
            _ => Option::None,
        }
    }

    open spec fn raw_spec(v: Seq<Seq<char>>) -> Seq<u8> {
        concat_utf8(v)
    }

    fn get_value(type_value: &Value) -> (r: Option<Self>) {
        match type_value {
            Value::VecString(v) => Some(clone_string_vec(v)),
            _ => None,
        }
    }

    fn into_raw_data(&self) -> (r: Vec<u8>) {
        let mut out: Vec<u8> = Vec::new();
        push_utf8_all(&mut out, self);
        assert(out@ =~= concat_utf8(self.deep_view()));
        out
    }
}

impl ValueType for Vec<u8> {
    open spec fn extract_spec(v: ValueV) -> Option<Seq<u8>> {
        match v {
            ValueV::VecUint8(s) => Option::Some(s),
            _ => Option::None,
        }
    }

    open spec fn raw_spec(v: Seq<u8>) -> Seq<u8> {
        concat_be(v.map_values(|x: u8| x as u128), 1)
    }

    fn get_value(type_value: &Value) -> (r: Option<Self>) {
        let r = match type_value {
            Value::VecUint8(v) => Some(slice_to_vec(v.as_slice())),
            _ => None,
        };
        proof {
            assert(r.deep_view() =~= Self::extract_spec(type_value@));
        }
        r
    }

    fn into_raw_data(&self) -> (r: Vec<u8>) {
        let mut out: Vec<u8> = Vec::new();
        push_be_all_u8(&mut out, self);
        proof {
            assert(self.deep_view() =~= self@);
            assert(out@ =~= Self::raw_spec(self.deep_view()));
        }
        out
    }
}

impl ValueType for Vec<u16> {
    open spec fn extract_spec(v: ValueV) -> Option<Seq<u16>> {
        match v {
            ValueV::VecUint16(s) => Option::Some(s),
            _ => Option::None,
        }
    }

    open spec fn raw_spec(v: Seq<u16>) -> Seq<u8> {
        concat_be(v.map_values(|x: u16| x as u128), 2)
    }

    fn get_value(type_value: &Value) -> (r: Option<Self>) {
        let r = match type_value {
            Value::VecUint16(v) => Some(slice_to_vec(v.as_slice())),
            _ => None,
        };
        proof {
            assert(r.deep_view() =~= Self::extract_spec(type_value@));
        }
        r
    }

    fn into_raw_data(&self) -> (r: Vec<u8>) {
        let mut out: Vec<u8> = Vec::new();
        push_be_all_u16(&mut out, self);
        proof {
            assert(self.deep_view() =~= self@);
            assert(out@ =~= Self::raw_spec(self.deep_view()));
        }
        out
    }
}

impl ValueType for Vec<u32> {
    open spec fn extract_spec(v: ValueV) -> Option<Seq<u32>> {
        match v {
            ValueV::VecUint32(s) => Option::Some(s),
            _ => Option::None,
        }
    }

    open spec fn raw_spec(v: Seq<u32>) -> Seq<u8> {
        concat_be(v.map_values(|x: u32| x as u128), 4)
    }

    fn get_value(type_value: &Value) -> (r: Option<Self>) {
        let r = match type_value {
            Value::VecUint32(v) => Some(slice_to_vec(v.as_slice())),
            _ => None,
        };
        proof {
            assert(r.deep_view() =~= Self::extract_spec(type_value@));
        }
        r
    }

    fn into_raw_data(&self) -> (r: Vec<u8>) {
        let mut out: Vec<u8> = Vec::new();
        push_be_all_u32(&mut out, self);
        proof {
            assert(self.deep_view() =~= self@);
            assert(out@ =~= Self::raw_spec(self.deep_view()));
        }
        out
    }
}

impl ValueType for Vec<u64> {
    open spec fn extract_spec(v: ValueV) -> Option<Seq<u64>> {
        match v {
            ValueV::VecUint64(s) => Option::Some(s),
            _ => Option::None,
        }
    }

    open spec fn raw_spec(v: Seq<u64>) -> Seq<u8> {
        concat_be(v.map_values(|x: u64| x as u128), 8)
    }

    fn get_value(type_value: &Value) -> (r: Option<Self>) {
        let r = match type_value {
            Value::VecUint64(v) => Some(slice_to_vec(v.as_slice())),
            _ => None,
        };
        proof {
            assert(r.deep_view() =~= Self::extract_spec(type_value@));
        }
        r
    }

    fn into_raw_data(&self) -> (r: Vec<u8>) {
        let mut out: Vec<u8> = Vec::new();
        push_be_all_u64(&mut out, self);
        proof {
            assert(self.deep_view() =~= self@);
            assert(out@ =~= Self::raw_spec(self.deep_view()));
        }
        out
    }
}

impl ValueType for Vec<u128> {
    open spec fn extract_spec(v: ValueV) -> Option<Seq<u128>> {
        match v {
            ValueV::VecUint128(s) => Option::Some(s),
            _ => Option::None,
        }
    }

    open spec fn raw_spec(v: Seq<u128>) -> Seq<u8> {
        concat_be(v, 16)
    }

    fn get_value(type_value: &Value) -> (r: Option<Self>) {
        let r = match type_value {
            Value::VecUint128(v) => Some(slice_to_vec(v.as_slice())),
            _ => None,
        };
        proof {
            assert(r.deep_view() =~= Self::extract_spec(type_value@));
        }
        r
    }

    fn into_raw_data(&self) -> (r: Vec<u8>) {
        let mut out: Vec<u8> = Vec::new();
        push_be_all_u128(&mut out, self);
        proof {
            assert(self.deep_view() =~= self@);
            assert(out@ =~= Self::raw_spec(self.deep_view()));
        }
        out
    }
}

impl ValueType for Vec<i8> {
    open spec fn extract_spec(v: ValueV) -> Option<Seq<i8>> {
        match v {
            ValueV::VecInt8(s) => Option::Some(s),
            _ => Option::None,
        }
    }

    open spec fn raw_spec(v: Seq<i8>) -> Seq<u8> {
        concat_be(v.map_values(|x: i8| u8_of_i8(x) as u128), 1)
    }

    fn get_value(type_value: &Value) -> (r: Option<Self>) {
        let r = match type_value {
            Value::VecInt8(v) => Some(slice_to_vec(v.as_slice())),
            _ => None,
        };
        proof {
            assert(r.deep_view() =~= Self::extract_spec(type_value@));
        }
        r
    }

    fn into_raw_data(&self) -> (r: Vec<u8>) {
        let mut out: Vec<u8> = Vec::new();
        push_be_all_i8(&mut out, self);
        proof {
            assert(self.deep_view() =~= self@);
            assert(out@ =~= Self::raw_spec(self.deep_view()));
        }
        out
    }
}

impl ValueType for Vec<i16> {
    open spec fn extract_spec(v: ValueV) -> Option<Seq<i16>> {
        match v {
            ValueV::VecInt16(s) => Option::Some(s),
            _ => Option::None,
        }
    }

    open spec fn raw_spec(v: Seq<i16>) -> Seq<u8> {
        concat_be(v.map_values(|x: i16| u16_of_i16(x) as u128), 2)
    }

    fn get_value(type_value: &Value) -> (r: Option<Self>) {
        let r = match type_value {
            Value::VecInt16(v) => Some(slice_to_vec(v.as_slice())),
            _ => None,
        };
        proof {
            assert(r.deep_view() =~= Self::extract_spec(type_value@));
        }
        r
    }

    fn into_raw_data(&self) -> (r: Vec<u8>) {
        let mut out: Vec<u8> = Vec::new();
        push_be_all_i16(&mut out, self);
        proof {
            assert(self.deep_view() =~= self@);
            assert(out@ =~= Self::raw_spec(self.deep_view()));
        }
        out
    }
}

impl ValueType for Vec<i32> {
    open spec fn extract_spec(v: ValueV) -> Option<Seq<i32>> {
        match v {
            ValueV::VecInt32(s) => Option::Some(s),
            _ => Option::None,
        }
    }

    open spec fn raw_spec(v: Seq<i32>) -> Seq<u8> {
        concat_be(v.map_values(|x: i32| u32_of_i32(x) as u128), 4)
    }

    fn get_value(type_value: &Value) -> (r: Option<Self>) {
        let r = match type_value {
            Value::VecInt32(v) => Some(slice_to_vec(v.as_slice())),
            _ => None,
        };
        proof {
            assert(r.deep_view() =~= Self::extract_spec(type_value@));
        }
        r
    }

    fn into_raw_data(&self) -> (r: Vec<u8>) {
        let mut out: Vec<u8> = Vec::new();
        push_be_all_i32(&mut out, self);
        proof {
            assert(self.deep_view() =~= self@);
            assert(out@ =~= Self::raw_spec(self.deep_view()));
        }
        out
    }
}

impl ValueType for Vec<i64> {
    open spec fn extract_spec(v: ValueV) -> Option<Seq<i64>> {
        match v {
            ValueV::VecInt64(s) => Option::Some(s),
            _ => Option::None,
        }
    }

    open spec fn raw_spec(v: Seq<i64>) -> Seq<u8> {
        concat_be(v.map_values(|x: i64| u64_of_i64(x) as u128), 8)
    }

    fn get_value(type_value: &Value) -> (r: Option<Self>) {
        let r = match type_value {
            Value::VecInt64(v) => Some(slice_to_vec(v.as_slice())),
            _ => None,
        };
        proof {
            assert(r.deep_view() =~= Self::extract_spec(type_value@));
        }
        r
    }

    fn into_raw_data(&self) -> (r: Vec<u8>) {
        let mut out: Vec<u8> = Vec::new();
        push_be_all_i64(&mut out, self);
        proof {
            assert(self.deep_view() =~= self@);
            assert(out@ =~= Self::raw_spec(self.deep_view()));
        }
        out
    }
}

impl ValueType for Address {
    open spec fn extract_spec(v: ValueV) -> Option<AddressV> {
        match v {
            ValueV::Address(a) => Option::Some(a),
            _ => Option::None,
        }
    }

    open spec fn raw_spec(v: AddressV) -> Seq<u8> {
        encode_utf8(v.address)
    }

    fn get_value(type_value: &Value) -> (r: Option<Self>) {
        match type_value {
            Value::Address(a) => Some(a.clone()),
            _ => None,
        }
    }

    fn into_raw_data(&self) -> (r: Vec<u8>) {
        let s = self.get();
        utf8_vec(s.as_str())
    }
}

impl Value {
    /// The checked downcast from the union to a concrete type: absent,
    /// not an error, on a tag mismatch.
    pub fn get_value<T: ValueType>(&self) -> (r: Option<T>)
        ensures
            r.deep_view() == T::extract_spec(self@),
    {
        T::get_value(self)
    }
}

} // verus!
