//! The self-describing structural encoding of values: one tag byte,
//! eight-byte big-endian length prefixes, and fixed-width big-endian
//! scalars.  Decoding inverts encoding exactly.
use vstd::prelude::*;
use vstd::utf8::decode_utf8;
use vstd::utf8::decode_utf8_encode_utf8;
use vstd::utf8::encode_utf8;
use vstd::utf8::encode_utf8_decode_utf8;
use vstd::utf8::encode_utf8_valid_utf8;
use vstd::utf8::valid_utf8;

use crate::encoding::be_bytes;
use crate::encoding::copy_range;
use crate::encoding::lemma_be_bytes_len;
use crate::encoding::lemma_be_bytes_of_nat_of_be;
use crate::encoding::lemma_nat_of_be_bound;
use crate::encoding::lemma_nat_of_be_bytes;
use crate::encoding::lemma_pow256_mono;
use crate::encoding::lemma_pow256_vals;
use crate::encoding::nat_of_be;
use crate::encoding::pow256;
use crate::encoding::push_be;
use crate::encoding::push_bytes;
use crate::encoding::read_be;
use crate::host::string_from_utf8;
use crate::value::concat_be;
use crate::value::i16_of_u16;
use crate::value::i32_of_u32;
use crate::value::i64_of_u64;
use crate::value::i8_of_u8;
use crate::value::u16_of_i16;
use crate::value::u16_to_i16;
use crate::value::u32_of_i32;
use crate::value::u32_to_i32;
use crate::value::u64_of_i64;
use crate::value::u64_to_i64;
use crate::value::u8_of_i8;
use crate::value::u8_to_i8;
use crate::value::Address;
use crate::value::AddressV;
use crate::value::Value;
use crate::value::ValueV;

verus! {

pub const TAG_STRING: u8 = 0;

pub const TAG_UINT8: u8 = 1;

pub const TAG_UINT16: u8 = 2;

pub const TAG_UINT32: u8 = 3;

pub const TAG_UINT64: u8 = 4;

pub const TAG_UINT128: u8 = 5;

pub const TAG_INT8: u8 = 6;

pub const TAG_INT16: u8 = 7;

pub const TAG_INT32: u8 = 8;

pub const TAG_INT64: u8 = 9;

pub const TAG_VEC_STRING: u8 = 10;

pub const TAG_VEC_UINT8: u8 = 11;

pub const TAG_VEC_UINT16: u8 = 12;

pub const TAG_VEC_UINT32: u8 = 13;

pub const TAG_VEC_UINT64: u8 = 14;

pub const TAG_VEC_UINT128: u8 = 15;

pub const TAG_VEC_INT8: u8 = 16;

pub const TAG_VEC_INT16: u8 = 17;

pub const TAG_VEC_INT32: u8 = 18;

pub const TAG_VEC_INT64: u8 = 19;

pub const TAG_ADDRESS: u8 = 20;

/// A length-prefixed string: eight-byte big-endian byte length, then
/// the UTF-8 bytes.
pub open spec fn string_block(s: Seq<char>) -> Seq<u8> {
    be_bytes(encode_utf8(s).len(), 8) + encode_utf8(s)
}

/// Concatenated length-prefixed strings.
pub open spec fn concat_str_blocks(vs: Seq<Seq<char>>) -> Seq<u8>
    decreases vs.len(),
{
    if vs.len() == 0 {
        Seq::empty()
    } else {
        concat_str_blocks(vs.drop_last()) + string_block(vs.last())
    }
}

/// The structural encoding of a value: a tag byte followed by the
/// variant's payload; every vector carries an eight-byte element count
/// and every string an eight-byte byte length.
pub open spec fn struct_bytes(v: ValueV) -> Seq<u8> {
    match v {
        ValueV::String(s) => seq![TAG_STRING] + string_block(s),
        ValueV::Uint8(x) => seq![TAG_UINT8] + be_bytes(x as nat, 1),
        ValueV::Uint16(x) => seq![TAG_UINT16] + be_bytes(x as nat, 2),
        ValueV::Uint32(x) => seq![TAG_UINT32] + be_bytes(x as nat, 4),
        ValueV::Uint64(x) => seq![TAG_UINT64] + be_bytes(x as nat, 8),
        ValueV::Uint128(x) => seq![TAG_UINT128] + be_bytes(x as nat, 16),
        ValueV::Int8(x) => seq![TAG_INT8] + be_bytes(u8_of_i8(x) as nat, 1),
        ValueV::Int16(x) => seq![TAG_INT16] + be_bytes(u16_of_i16(x) as nat, 2),
        ValueV::Int32(x) => seq![TAG_INT32] + be_bytes(u32_of_i32(x) as nat, 4),
        ValueV::Int64(x) => seq![TAG_INT64] + be_bytes(u64_of_i64(x) as nat, 8),
        ValueV::VecString(vs) => seq![TAG_VEC_STRING] + be_bytes(vs.len(), 8)
            + concat_str_blocks(vs),
        ValueV::VecUint8(s) => seq![TAG_VEC_UINT8] + be_bytes(s.len(), 8) + concat_be(
            s.map_values(|x: u8| x as u128),
            1,
        ),
        ValueV::VecUint16(s) => seq![TAG_VEC_UINT16] + be_bytes(s.len(), 8) + concat_be(
            s.map_values(|x: u16| x as u128),
            2,
        ),
        ValueV::VecUint32(s) => seq![TAG_VEC_UINT32] + be_bytes(s.len(), 8) + concat_be(
            s.map_values(|x: u32| x as u128),
            4,
        ),
        ValueV::VecUint64(s) => seq![TAG_VEC_UINT64] + be_bytes(s.len(), 8) + concat_be(
            s.map_values(|x: u64| x as u128),
            8,
        ),
        ValueV::VecUint128(s) => seq![TAG_VEC_UINT128] + be_bytes(s.len(), 8) + concat_be(s, 16),
        ValueV::VecInt8(s) => seq![TAG_VEC_INT8] + be_bytes(s.len(), 8) + concat_be(
            s.map_values(|x: i8| u8_of_i8(x) as u128),
            1,
        ),
        ValueV::VecInt16(s) => seq![TAG_VEC_INT16] + be_bytes(s.len(), 8) + concat_be(
            s.map_values(|x: i16| u16_of_i16(x) as u128),
            2,
        ),
        ValueV::VecInt32(s) => seq![TAG_VEC_INT32] + be_bytes(s.len(), 8) + concat_be(
            s.map_values(|x: i32| u32_of_i32(x) as u128),
            4,
        ),
        ValueV::VecInt64(s) => seq![TAG_VEC_INT64] + be_bytes(s.len(), 8) + concat_be(
            s.map_values(|x: i64| u64_of_i64(x) as u128),
            8,
        ),
        ValueV::Address(a) => seq![TAG_ADDRESS] + string_block(a.address) + seq![a.kind],
    }
}

/// Every length that the encoding stores in an eight-byte prefix fits
/// that prefix.  Every value built from executable data satisfies this.
pub open spec fn value_in_range(v: ValueV) -> bool {
    match v {
        ValueV::String(s) => encode_utf8(s).len() < pow256(8),
        ValueV::VecString(vs) => vs.len() < pow256(8) && (forall|i: int|
            0 <= i < vs.len() ==> encode_utf8(#[trigger] vs[i]).len() < pow256(8)),
        ValueV::VecUint8(s) => s.len() < pow256(8),
        ValueV::VecUint16(s) => s.len() < pow256(8),
        ValueV::VecUint32(s) => s.len() < pow256(8),
        ValueV::VecUint64(s) => s.len() < pow256(8),
        ValueV::VecUint128(s) => s.len() < pow256(8),
        ValueV::VecInt8(s) => s.len() < pow256(8),
        ValueV::VecInt16(s) => s.len() < pow256(8),
        ValueV::VecInt32(s) => s.len() < pow256(8),
        ValueV::VecInt64(s) => s.len() < pow256(8),
        ValueV::Address(a) => encode_utf8(a.address).len() < pow256(8),
        _ => true,
    }
}

/// Parses `n` fixed-width big-endian numbers from the front of `s`.
pub open spec fn parse_uints(s: Seq<u8>, n: nat, w: nat) -> Option<(Seq<u128>, int)>
    decreases n,
{
    if n == 0 {
        Option::Some((Seq::empty(), 0))
    } else if s.len() < w {
        Option::None
    } else {
        let x = nat_of_be(s.take(w as int)) as u128;
        match parse_uints(s.skip(w as int), (n - 1) as nat, w) {
            Option::Some((rest, m)) => Option::Some((seq![x] + rest, w + m)),
            Option::None => Option::None,
        }
    }
}

/// Parses one length-prefixed string from the front of `s`.
pub open spec fn parse_str_block(s: Seq<u8>) -> Option<(Seq<char>, int)> {
    if s.len() < 8 {
        Option::None
    } else {
        let l = nat_of_be(s.take(8)) as int;
        if s.len() < 8 + l {
            Option::None
        } else if valid_utf8(s.subrange(8, 8 + l)) {
            Option::Some((decode_utf8(s.subrange(8, 8 + l)), 8 + l))
        } else {
            Option::None
        }
    }
}

/// Parses `n` length-prefixed strings from the front of `s`.
pub open spec fn parse_str_blocks(s: Seq<u8>, n: nat) -> Option<(Seq<Seq<char>>, int)>
    decreases n,
{
    if n == 0 {
        Option::Some((Seq::empty(), 0))
    } else {
        match parse_str_block(s) {
            Option::Some((c, k)) => match parse_str_blocks(s.skip(k), (n - 1) as nat) {
                Option::Some((rest, m)) => Option::Some((seq![c] + rest, k + m)),
                Option::None => Option::None,
            },
            Option::None => Option::None,
        }
    }
}

/// Parses one value from the front of `s`, returning it with the
/// number of bytes it occupied.
pub open spec fn parse_value_at(s: Seq<u8>) -> Option<(ValueV, int)> {
    if s.len() < 1 {
        Option::None
    } else {
        let tag = s[0];
        let body = s.skip(1);
        if tag == TAG_STRING {
            match parse_str_block(body) {
                Option::Some((c, k)) => Option::Some((ValueV::String(c), 1 + k)),
                Option::None => Option::None,
            }
        } else if tag == TAG_UINT8 {
            if body.len() < 1 {
                Option::None
            } else {
                Option::Some((ValueV::Uint8(nat_of_be(body.take(1)) as u8), 2))
            }
        } else if tag == TAG_UINT16 {
            if body.len() < 2 {
                Option::None
            } else {
                Option::Some((ValueV::Uint16(nat_of_be(body.take(2)) as u16), 3))
            }
        } else if tag == TAG_UINT32 {
            if body.len() < 4 {
                Option::None
            } else {
                Option::Some((ValueV::Uint32(nat_of_be(body.take(4)) as u32), 5))
            }
        } else if tag == TAG_UINT64 {
            if body.len() < 8 {
                Option::None
            } else {
                Option::Some((ValueV::Uint64(nat_of_be(body.take(8)) as u64), 9))
            }
        } else if tag == TAG_UINT128 {
            if body.len() < 16 {
                Option::None
            } else {
                Option::Some((ValueV::Uint128(nat_of_be(body.take(16)) as u128), 17))
            }
        } else if tag == TAG_INT8 {
            if body.len() < 1 {
                Option::None
            } else {
                Option::Some((ValueV::Int8(i8_of_u8(nat_of_be(body.take(1)) as u8)), 2))
            }
        } else if tag == TAG_INT16 {
            if body.len() < 2 {
                Option::None
            } else {
                Option::Some((ValueV::Int16(i16_of_u16(nat_of_be(body.take(2)) as u16)), 3))
            }
        } else if tag == TAG_INT32 {
            if body.len() < 4 {
                Option::None
            } else {
                Option::Some((ValueV::Int32(i32_of_u32(nat_of_be(body.take(4)) as u32)), 5))
            }
        } else if tag == TAG_INT64 {
            if body.len() < 8 {
                Option::None
            } else {
                Option::Some((ValueV::Int64(i64_of_u64(nat_of_be(body.take(8)) as u64)), 9))
            }
        } else if tag == TAG_VEC_STRING {
            if body.len() < 8 {
                Option::None
            } else {
                match parse_str_blocks(body.skip(8), nat_of_be(body.take(8))) {
                    Option::Some((vs, k)) => Option::Some((ValueV::VecString(vs), 9 + k)),
                    Option::None => Option::None,
                }
            }
        } else if tag == TAG_VEC_UINT8 {
            if body.len() < 8 {
                Option::None
            } else {
                match parse_uints(body.skip(8), nat_of_be(body.take(8)), 1) {
                    Option::Some((ns, k)) => Option::Some(
                        (ValueV::VecUint8(ns.map_values(|x: u128| x as u8)), 9 + k),
                    ),
                    Option::None => Option::None,
                }
            }
        } else if tag == TAG_VEC_UINT16 {
            if body.len() < 8 {
                Option::None
            } else {
                match parse_uints(body.skip(8), nat_of_be(body.take(8)), 2) {
                    Option::Some((ns, k)) => Option::Some(
                        (ValueV::VecUint16(ns.map_values(|x: u128| x as u16)), 9 + k),
                    ),
                    Option::None => Option::None,
                }
            }
        } else if tag == TAG_VEC_UINT32 {
            if body.len() < 8 {
                Option::None
            } else {
                match parse_uints(body.skip(8), nat_of_be(body.take(8)), 4) {
                    Option::Some((ns, k)) => Option::Some(
                        (ValueV::VecUint32(ns.map_values(|x: u128| x as u32)), 9 + k),
                    ),
                    Option::None => Option::None,
                }
            }
        } else if tag == TAG_VEC_UINT64 {
            if body.len() < 8 {
                Option::None
            } else {
                match parse_uints(body.skip(8), nat_of_be(body.take(8)), 8) {
                    Option::Some((ns, k)) => Option::Some(
                        (ValueV::VecUint64(ns.map_values(|x: u128| x as u64)), 9 + k),
                    ),
                    Option::None => Option::None,
                }
            }
        } else if tag == TAG_VEC_UINT128 {
            if body.len() < 8 {
                Option::None
            } else {
                match parse_uints(body.skip(8), nat_of_be(body.take(8)), 16) {
                    Option::Some((ns, k)) => Option::Some((ValueV::VecUint128(ns), 9 + k)),
                    Option::None => Option::None,
                }
            }
        } else if tag == TAG_VEC_INT8 {
            if body.len() < 8 {
                Option::None
            } else {
                match parse_uints(body.skip(8), nat_of_be(body.take(8)), 1) {
                    Option::Some((ns, k)) => Option::Some(
                        (ValueV::VecInt8(ns.map_values(|x: u128| i8_of_u8(x as u8))), 9 + k),
                    ),
                    Option::None => Option::None,
                }
            }
        } else if tag == TAG_VEC_INT16 {
            if body.len() < 8 {
                Option::None
            } else {
                match parse_uints(body.skip(8), nat_of_be(body.take(8)), 2) {
                    Option::Some((ns, k)) => Option::Some(
                        (ValueV::VecInt16(ns.map_values(|x: u128| i16_of_u16(x as u16))), 9 + k),
                    ),
                    Option::None => Option::None,
                }
            }
        } else if tag == TAG_VEC_INT32 {
            if body.len() < 8 {
                Option::None
            } else {
                match parse_uints(body.skip(8), nat_of_be(body.take(8)), 4) {
                    Option::Some((ns, k)) => Option::Some(
                        (ValueV::VecInt32(ns.map_values(|x: u128| i32_of_u32(x as u32))), 9 + k),
                    ),
                    Option::None => Option::None,
                }
            }
        } else if tag == TAG_VEC_INT64 {
            if body.len() < 8 {
                Option::None
            } else {
                match parse_uints(body.skip(8), nat_of_be(body.take(8)), 8) {
                    Option::Some((ns, k)) => Option::Some(
                        (ValueV::VecInt64(ns.map_values(|x: u128| i64_of_u64(x as u64))), 9 + k),
                    ),
                    Option::None => Option::None,
                }
            }
        } else if tag == TAG_ADDRESS {
            match parse_str_block(body) {
                Option::Some((c, k)) => if body.len() >= k + 1 {
                    Option::Some(
                        (ValueV::Address(AddressV { address: c, kind: body[k] }), 1 + k + 1),
                    )
                } else {
                    Option::None
                },
                Option::None => Option::None,
            }
        } else {
            Option::None
        }
    }
}

/// The value a whole byte string denotes: its front value, provided
/// nothing follows it.
pub open spec fn struct_value(s: Seq<u8>) -> Option<ValueV> {
    match parse_value_at(s) {
        Option::Some((v, n)) => if n == s.len() {
            Option::Some(v)
        } else {
            Option::None
        },
        Option::None => Option::None,
    }
}

/// Unrolls [`concat_be`] at the front.
pub proof fn lemma_concat_be_first(ns: Seq<u128>, w: nat)
    requires
        ns.len() > 0,
    ensures
        concat_be(ns, w) == be_bytes(ns[0] as nat, w) + concat_be(ns.drop_first(), w),
    decreases ns.len(),
{
    if ns.len() == 1 {
        assert(ns.drop_last() =~= Seq::<u128>::empty());
        assert(ns.drop_first() =~= Seq::<u128>::empty());
        assert(concat_be(ns, w) =~= be_bytes(ns[0] as nat, w) + concat_be(ns.drop_first(), w));
    } else {
        lemma_concat_be_first(ns.drop_last(), w);
        assert(ns.drop_last()[0] == ns[0]);
        assert(ns.drop_last().drop_first() =~= ns.drop_first().drop_last());
        assert(ns.drop_first().last() == ns.last());
        assert(concat_be(ns, w) == concat_be(ns.drop_last(), w) + be_bytes(ns.last() as nat, w));
        assert(concat_be(ns.drop_first(), w) == concat_be(ns.drop_first().drop_last(), w)
            + be_bytes(ns.drop_first().last() as nat, w));
        assert(concat_be(ns, w) =~= be_bytes(ns[0] as nat, w) + concat_be(ns.drop_first(), w));
    }
}

/// Unrolls [`concat_str_blocks`] at the front.
pub proof fn lemma_concat_str_blocks_first(vs: Seq<Seq<char>>)
    requires
        vs.len() > 0,
    ensures
        concat_str_blocks(vs) == string_block(vs[0]) + concat_str_blocks(vs.drop_first()),
    decreases vs.len(),
{
    if vs.len() == 1 {
        assert(vs.drop_last() =~= Seq::<Seq<char>>::empty());
        assert(vs.drop_first() =~= Seq::<Seq<char>>::empty());
        assert(concat_str_blocks(vs) =~= string_block(vs[0]) + concat_str_blocks(vs.drop_first()));
    } else {
        lemma_concat_str_blocks_first(vs.drop_last());
        assert(vs.drop_last()[0] == vs[0]);
        assert(vs.drop_last().drop_first() =~= vs.drop_first().drop_last());
        assert(vs.drop_first().last() == vs.last());
        assert(concat_str_blocks(vs) == concat_str_blocks(vs.drop_last())
            + string_block(vs.last()));
        assert(concat_str_blocks(vs.drop_first()) == concat_str_blocks(
            vs.drop_first().drop_last(),
        ) + string_block(vs.drop_first().last()));
        assert(concat_str_blocks(vs) =~= string_block(vs[0]) + concat_str_blocks(vs.drop_first()));
    }
}

/// Parsing numbers inverts their concatenated encoding, whatever
/// follows it.
pub proof fn lemma_parse_uints_round_trip(ms: Seq<u128>, w: nat, rest: Seq<u8>)
    requires
        1 <= w,
        forall|i: int| 0 <= i < ms.len() ==> (#[trigger] ms[i] as nat) < pow256(w),
    ensures
        parse_uints(concat_be(ms, w) + rest, ms.len(), w) == Option::Some(
            (ms, concat_be(ms, w).len() as int),
        ),
    decreases ms.len(),
{
    let s = concat_be(ms, w) + rest;
    if ms.len() == 0 {
        assert(concat_be(ms, w) =~= Seq::<u8>::empty());
        assert(parse_uints(s, 0, w) == Option::Some((Seq::<u128>::empty(), 0int)));
        assert(Seq::<u128>::empty() =~= ms);
    } else {
        lemma_concat_be_first(ms, w);
        lemma_be_bytes_len(ms[0] as nat, w);
        assert(s.take(w as int) =~= be_bytes(ms[0] as nat, w));
        lemma_nat_of_be_bytes(ms[0] as nat, w);
        assert(nat_of_be(s.take(w as int)) as u128 == ms[0]);
        assert(s.skip(w as int) =~= concat_be(ms.drop_first(), w) + rest);
        lemma_parse_uints_round_trip(ms.drop_first(), w, rest);
        assert(seq![ms[0]] + ms.drop_first() =~= ms);
        lemma_concat_be_first(ms, w);
        assert(concat_be(ms, w).len() == w + concat_be(ms.drop_first(), w).len());
    }
}

/// Parsing a length-prefixed string inverts its encoding, whatever
/// follows it.
pub proof fn lemma_parse_str_block_round_trip(c: Seq<char>, rest: Seq<u8>)
    requires
        encode_utf8(c).len() < pow256(8),
    ensures
        parse_str_block(string_block(c) + rest) == Option::Some(
            (c, string_block(c).len() as int),
        ),
{
    let u = encode_utf8(c);
    let s = string_block(c) + rest;
    lemma_be_bytes_len(u.len(), 8);
    lemma_pow256_vals();
    assert(s.take(8) =~= be_bytes(u.len(), 8));
    lemma_nat_of_be_bytes(u.len(), 8);
    let l = u.len() as int;
    assert(s.len() >= 8 + l);
    assert(s.subrange(8, 8 + l) =~= u);
    encode_utf8_valid_utf8(c);
    encode_utf8_decode_utf8(c);
}

/// Parsing length-prefixed strings inverts their concatenated
/// encoding, whatever follows it.
pub proof fn lemma_parse_str_blocks_round_trip(vs: Seq<Seq<char>>, rest: Seq<u8>)
    requires
        forall|i: int| 0 <= i < vs.len() ==> encode_utf8(#[trigger] vs[i]).len() < pow256(8),
    ensures
        parse_str_blocks(concat_str_blocks(vs) + rest, vs.len()) == Option::Some(
            (vs, concat_str_blocks(vs).len() as int),
        ),
    decreases vs.len(),
{
    let s = concat_str_blocks(vs) + rest;
    if vs.len() == 0 {
        assert(concat_str_blocks(vs) =~= Seq::<u8>::empty());
        assert(parse_str_blocks(s, 0) == Option::Some((Seq::<Seq<char>>::empty(), 0int)));
        assert(Seq::<Seq<char>>::empty() =~= vs);
    } else {
        lemma_concat_str_blocks_first(vs);
        assert(s =~= string_block(vs[0]) + (concat_str_blocks(vs.drop_first()) + rest));
        lemma_parse_str_block_round_trip(vs[0], concat_str_blocks(vs.drop_first()) + rest);
        let k = string_block(vs[0]).len() as int;
        assert(s.skip(k) =~= concat_str_blocks(vs.drop_first()) + rest);
        lemma_parse_str_blocks_round_trip(vs.drop_first(), rest);
        assert(seq![vs[0]] + vs.drop_first() =~= vs);
        assert(concat_str_blocks(vs).len() == k + concat_str_blocks(vs.drop_first()).len());
    }
}

/// Decoding inverts encoding for every value whose lengths fit their
/// eight-byte prefixes, whatever bytes follow the encoding.
#[verifier::rlimit(100)]
#[verifier::spinoff_prover]
pub proof fn lemma_parse_value_round_trip(v: ValueV, rest: Seq<u8>)
    requires
        value_in_range(v),
    ensures
        parse_value_at(struct_bytes(v) + rest) == Option::Some(
            (v, struct_bytes(v).len() as int),
        ),
{
    lemma_pow256_vals();
    let e = struct_bytes(v);
    let s = e + rest;
    let body = s.skip(1);
    match v {
        ValueV::String(c) => {
            assert(s[0] == TAG_STRING);
            assert(body =~= string_block(c) + rest);
            lemma_parse_str_block_round_trip(c, rest);
            lemma_be_bytes_len(encode_utf8(c).len(), 8);
        },
        ValueV::Uint8(x) => {
            assert(s[0] == TAG_UINT8);
            lemma_be_bytes_len(x as nat, 1);
            assert(body.take(1) =~= be_bytes(x as nat, 1));
            lemma_nat_of_be_bytes(x as nat, 1);
        },
        ValueV::Uint16(x) => {
            assert(s[0] == TAG_UINT16);
            lemma_be_bytes_len(x as nat, 2);
            assert(body.take(2) =~= be_bytes(x as nat, 2));
            lemma_nat_of_be_bytes(x as nat, 2);
        },
        ValueV::Uint32(x) => {
            assert(s[0] == TAG_UINT32);
            lemma_be_bytes_len(x as nat, 4);
            assert(body.take(4) =~= be_bytes(x as nat, 4));
            lemma_nat_of_be_bytes(x as nat, 4);
        },
        ValueV::Uint64(x) => {
            assert(s[0] == TAG_UINT64);
            lemma_be_bytes_len(x as nat, 8);
            assert(body.take(8) =~= be_bytes(x as nat, 8));
            lemma_nat_of_be_bytes(x as nat, 8);
        },
        ValueV::Uint128(x) => {
            assert(s[0] == TAG_UINT128);
            lemma_be_bytes_len(x as nat, 16);
            assert(body.take(16) =~= be_bytes(x as nat, 16));
            lemma_nat_of_be_bytes(x as nat, 16);
        },
        ValueV::Int8(x) => {
            assert(s[0] == TAG_INT8);
            lemma_be_bytes_len(u8_of_i8(x) as nat, 1);
            assert(body.take(1) =~= be_bytes(u8_of_i8(x) as nat, 1));
            lemma_nat_of_be_bytes(u8_of_i8(x) as nat, 1);
            assert(i8_of_u8(u8_of_i8(x)) == x);
        },
        ValueV::Int16(x) => {
            assert(s[0] == TAG_INT16);
            lemma_be_bytes_len(u16_of_i16(x) as nat, 2);
            assert(body.take(2) =~= be_bytes(u16_of_i16(x) as nat, 2));
            lemma_nat_of_be_bytes(u16_of_i16(x) as nat, 2);
            assert(i16_of_u16(u16_of_i16(x)) == x);
        },
        ValueV::Int32(x) => {
            assert(s[0] == TAG_INT32);
            lemma_be_bytes_len(u32_of_i32(x) as nat, 4);
            assert(body.take(4) =~= be_bytes(u32_of_i32(x) as nat, 4));
            lemma_nat_of_be_bytes(u32_of_i32(x) as nat, 4);
            assert(i32_of_u32(u32_of_i32(x)) == x);
        },
        ValueV::Int64(x) => {
            assert(s[0] == TAG_INT64);
            lemma_be_bytes_len(u64_of_i64(x) as nat, 8);
            assert(body.take(8) =~= be_bytes(u64_of_i64(x) as nat, 8));
            lemma_nat_of_be_bytes(u64_of_i64(x) as nat, 8);
            assert(i64_of_u64(u64_of_i64(x)) == x);
        },
        ValueV::VecString(vs) => {
            assert(s[0] == TAG_VEC_STRING);
            lemma_be_bytes_len(vs.len(), 8);
            assert(body.take(8) =~= be_bytes(vs.len(), 8));
            lemma_nat_of_be_bytes(vs.len(), 8);
            assert(body.skip(8) =~= concat_str_blocks(vs) + rest);
            lemma_parse_str_blocks_round_trip(vs, rest);
        },
        ValueV::VecUint8(xs) => {
            assert(s[0] == TAG_VEC_UINT8);
            let m = xs.map_values(|x: u8| x as u128);
            lemma_be_bytes_len(xs.len(), 8);
            assert(body.take(8) =~= be_bytes(xs.len(), 8));
            lemma_nat_of_be_bytes(xs.len(), 8);
            assert(body.skip(8) =~= concat_be(m, 1) + rest);
            lemma_parse_uints_round_trip(m, 1, rest);
            assert(m.map_values(|x: u128| x as u8) =~= xs);
        },
        ValueV::VecUint16(xs) => {
            assert(s[0] == TAG_VEC_UINT16);
            let m = xs.map_values(|x: u16| x as u128);
            lemma_be_bytes_len(xs.len(), 8);
            assert(body.take(8) =~= be_bytes(xs.len(), 8));
            lemma_nat_of_be_bytes(xs.len(), 8);
            assert(body.skip(8) =~= concat_be(m, 2) + rest);
            lemma_parse_uints_round_trip(m, 2, rest);
            assert(m.map_values(|x: u128| x as u16) =~= xs);
        },
        ValueV::VecUint32(xs) => {
            assert(s[0] == TAG_VEC_UINT32);
            let m = xs.map_values(|x: u32| x as u128);
            lemma_be_bytes_len(xs.len(), 8);
            assert(body.take(8) =~= be_bytes(xs.len(), 8));
            lemma_nat_of_be_bytes(xs.len(), 8);
            assert(body.skip(8) =~= concat_be(m, 4) + rest);
            lemma_parse_uints_round_trip(m, 4, rest);
            assert(m.map_values(|x: u128| x as u32) =~= xs);
        },
        ValueV::VecUint64(xs) => {
            assert(s[0] == TAG_VEC_UINT64);
            let m = xs.map_values(|x: u64| x as u128);
            lemma_be_bytes_len(xs.len(), 8);
            assert(body.take(8) =~= be_bytes(xs.len(), 8));
            lemma_nat_of_be_bytes(xs.len(), 8);
            assert(body.skip(8) =~= concat_be(m, 8) + rest);
            lemma_parse_uints_round_trip(m, 8, rest);
            assert(m.map_values(|x: u128| x as u64) =~= xs);
        },
        ValueV::VecUint128(xs) => {
            assert(s[0] == TAG_VEC_UINT128);
            lemma_be_bytes_len(xs.len(), 8);
            assert(body.take(8) =~= be_bytes(xs.len(), 8));
            lemma_nat_of_be_bytes(xs.len(), 8);
            assert(body.skip(8) =~= concat_be(xs, 16) + rest);
            lemma_parse_uints_round_trip(xs, 16, rest);
        },
        ValueV::VecInt8(xs) => {
            assert(s[0] == TAG_VEC_INT8);
            let m = xs.map_values(|x: i8| u8_of_i8(x) as u128);
            lemma_be_bytes_len(xs.len(), 8);
            assert(body.take(8) =~= be_bytes(xs.len(), 8));
            lemma_nat_of_be_bytes(xs.len(), 8);
            assert(body.skip(8) =~= concat_be(m, 1) + rest);
            lemma_parse_uints_round_trip(m, 1, rest);
            assert(m.map_values(|x: u128| i8_of_u8(x as u8)) =~= xs);
        },
        ValueV::VecInt16(xs) => {
            assert(s[0] == TAG_VEC_INT16);
            let m = xs.map_values(|x: i16| u16_of_i16(x) as u128);
            lemma_be_bytes_len(xs.len(), 8);
            assert(body.take(8) =~= be_bytes(xs.len(), 8));
            lemma_nat_of_be_bytes(xs.len(), 8);
            assert(body.skip(8) =~= concat_be(m, 2) + rest);
            lemma_parse_uints_round_trip(m, 2, rest);
            assert(m.map_values(|x: u128| i16_of_u16(x as u16)) =~= xs);
        },
        ValueV::VecInt32(xs) => {
            assert(s[0] == TAG_VEC_INT32);
            let m = xs.map_values(|x: i32| u32_of_i32(x) as u128);
            lemma_be_bytes_len(xs.len(), 8);
            assert(body.take(8) =~= be_bytes(xs.len(), 8));
            lemma_nat_of_be_bytes(xs.len(), 8);
            assert(body.skip(8) =~= concat_be(m, 4) + rest);
            lemma_parse_uints_round_trip(m, 4, rest);
            assert(m.map_values(|x: u128| i32_of_u32(x as u32)) =~= xs);
        },
        ValueV::VecInt64(xs) => {
            assert(s[0] == TAG_VEC_INT64);
            let m = xs.map_values(|x: i64| u64_of_i64(x) as u128);
            lemma_be_bytes_len(xs.len(), 8);
            assert(body.take(8) =~= be_bytes(xs.len(), 8));
            lemma_nat_of_be_bytes(xs.len(), 8);
            assert(body.skip(8) =~= concat_be(m, 8) + rest);
            lemma_parse_uints_round_trip(m, 8, rest);
            assert(m.map_values(|x: u128| i64_of_u64(x as u64)) =~= xs);
        },
        ValueV::Address(a) => {
            assert(s[0] == TAG_ADDRESS);
            assert(body =~= string_block(a.address) + (seq![a.kind] + rest));
            lemma_parse_str_block_round_trip(a.address, seq![a.kind] + rest);
            let k = string_block(a.address).len() as int;
            lemma_be_bytes_len(encode_utf8(a.address).len(), 8);
            assert(body[k] == a.kind);
        },
    }
}

/// The round-trip law: decoding the structural encoding of any value
/// whose lengths fit their eight-byte prefixes yields that value.
pub proof fn lemma_structural_round_trip(v: ValueV)
    requires
        value_in_range(v),
    ensures
        struct_value(struct_bytes(v)) == Option::Some(v),
{
    lemma_parse_value_round_trip(v, Seq::empty());
    assert(struct_bytes(v) + Seq::<u8>::empty() =~= struct_bytes(v));
}

/// Unrolls one step of [`concat_str_blocks`] over a prefix.
pub proof fn lemma_concat_str_blocks_take(vs: Seq<Seq<char>>, i: int)
    requires
        0 <= i < vs.len(),
    ensures
        concat_str_blocks(vs.take(i + 1)) == concat_str_blocks(vs.take(i)) + string_block(vs[i]),
{
    assert(vs.take(i + 1).drop_last() =~= vs.take(i));
}

/// Appends the length-prefixed encoding of one string to `out`.
pub(crate) fn push_str_block(out: &mut Vec<u8>, s: &str)
    ensures
        final(out)@ == old(out)@ + string_block(s@),
{
    proof {
        lemma_pow256_vals();
    }
    let bs = s.as_bytes();
    push_be(out, bs.len() as u128, 8);
    push_bytes(out, bs);
    assert(final(out)@ =~= old(out)@ + string_block(s@));
}

/// Appends the length-prefixed encodings of every element of `vs`.
pub(crate) fn push_str_blocks(out: &mut Vec<u8>, vs: &Vec<String>)
    ensures
        final(out)@ == old(out)@ + concat_str_blocks(vs.deep_view()),
{
    let ghost m = vs.deep_view();
    let mut i: usize = 0;
    while i < vs.len()
        invariant
            i <= vs@.len(),
            m == vs.deep_view(),
            m.len() == vs@.len(),
            out@ == old(out)@ + concat_str_blocks(m.take(i as int)),
        decreases vs@.len() - i,
    {
        proof {
            lemma_concat_str_blocks_take(m, i as int);
            assert(m[i as int] == vs@[i as int]@);
        }
        push_str_block(out, vs[i].as_str());
        i = i + 1;
    }
    assert(m.take(vs@.len() as int) =~= m);
}

/// Encodes a value in the self-describing structural form.
pub fn encode_structural(v: &Value) -> (r: Vec<u8>)
    ensures
        r@ == struct_bytes(v@),
{
    proof {
        lemma_pow256_vals();
    }
    let mut out: Vec<u8> = Vec::new();
    match v {
        Value::String(st) => {
            out.push(TAG_STRING);
            push_str_block(&mut out, st.as_str());
            assert(out@ =~= struct_bytes(v@));
        },
        Value::Uint8(x) => {
            out.push(TAG_UINT8);
            push_be(&mut out, *x as u128, 1);
            assert(out@ =~= struct_bytes(v@));
        },
        Value::Uint16(x) => {
            out.push(TAG_UINT16);
            push_be(&mut out, *x as u128, 2);
            assert(out@ =~= struct_bytes(v@));
        },
        Value::Uint32(x) => {
            out.push(TAG_UINT32);
            push_be(&mut out, *x as u128, 4);
            assert(out@ =~= struct_bytes(v@));
        },
        Value::Uint64(x) => {
            out.push(TAG_UINT64);
            push_be(&mut out, *x as u128, 8);
            assert(out@ =~= struct_bytes(v@));
        },
        Value::Uint128(x) => {
            out.push(TAG_UINT128);
            push_be(&mut out, *x, 16);
            assert(out@ =~= struct_bytes(v@));
        },
        Value::Int8(x) => {
            out.push(TAG_INT8);
            let u = crate::value::i8_to_u8(*x);
            push_be(&mut out, u as u128, 1);
            assert(out@ =~= struct_bytes(v@));
        },
        Value::Int16(x) => {
            out.push(TAG_INT16);
            let u = crate::value::i16_to_u16(*x);
            push_be(&mut out, u as u128, 2);
            assert(out@ =~= struct_bytes(v@));
        },
        Value::Int32(x) => {
            out.push(TAG_INT32);
            let u = crate::value::i32_to_u32(*x);
            push_be(&mut out, u as u128, 4);
            assert(out@ =~= struct_bytes(v@));
        },
        Value::Int64(x) => {
            out.push(TAG_INT64);
            let u = crate::value::i64_to_u64(*x);
            push_be(&mut out, u as u128, 8);
            assert(out@ =~= struct_bytes(v@));
        },
        Value::VecString(xs) => {
            out.push(TAG_VEC_STRING);
            push_be(&mut out, xs.len() as u128, 8);
            push_str_blocks(&mut out, xs);
            assert(out@ =~= struct_bytes(v@));
        },
        Value::VecUint8(xs) => {
            out.push(TAG_VEC_UINT8);
            push_be(&mut out, xs.len() as u128, 8);
            crate::value::push_be_all_u8(&mut out, xs);
            assert(out@ =~= struct_bytes(v@));
        },
        Value::VecUint16(xs) => {
            out.push(TAG_VEC_UINT16);
            push_be(&mut out, xs.len() as u128, 8);
            crate::value::push_be_all_u16(&mut out, xs);
            assert(out@ =~= struct_bytes(v@));
        },
        Value::VecUint32(xs) => {
            out.push(TAG_VEC_UINT32);
            push_be(&mut out, xs.len() as u128, 8);
            crate::value::push_be_all_u32(&mut out, xs);
            assert(out@ =~= struct_bytes(v@));
        },
        Value::VecUint64(xs) => {
            out.push(TAG_VEC_UINT64);
            push_be(&mut out, xs.len() as u128, 8);
            crate::value::push_be_all_u64(&mut out, xs);
            assert(out@ =~= struct_bytes(v@));
        },
        Value::VecUint128(xs) => {
            out.push(TAG_VEC_UINT128);
            push_be(&mut out, xs.len() as u128, 8);
            crate::value::push_be_all_u128(&mut out, xs);
            assert(out@ =~= struct_bytes(v@));
        },
        Value::VecInt8(xs) => {
            out.push(TAG_VEC_INT8);
            push_be(&mut out, xs.len() as u128, 8);
            crate::value::push_be_all_i8(&mut out, xs);
            assert(out@ =~= struct_bytes(v@));
        },
        Value::VecInt16(xs) => {
            out.push(TAG_VEC_INT16);
            push_be(&mut out, xs.len() as u128, 8);
            crate::value::push_be_all_i16(&mut out, xs);
            assert(out@ =~= struct_bytes(v@));
        },
        Value::VecInt32(xs) => {
            out.push(TAG_VEC_INT32);
            push_be(&mut out, xs.len() as u128, 8);
            crate::value::push_be_all_i32(&mut out, xs);
            assert(out@ =~= struct_bytes(v@));
        },
        Value::VecInt64(xs) => {
            out.push(TAG_VEC_INT64);
            push_be(&mut out, xs.len() as u128, 8);
            crate::value::push_be_all_i64(&mut out, xs);
            assert(out@ =~= struct_bytes(v@));
        },
        Value::Address(a) => {
            out.push(TAG_ADDRESS);
            let s = a.get();
            push_str_block(&mut out, s.as_str());
            out.push(a.get_type());
            assert(out@ =~= struct_bytes(v@));
        },
    }
    out
}

/// Number parsing never consumes more bytes than the input holds.
pub proof fn lemma_parse_uints_consumed(s: Seq<u8>, n: nat, w: nat)
    requires
        1 <= w,
    ensures
        match parse_uints(s, n, w) {
            Option::Some((ns, m)) => 0 <= m <= s.len(),
            Option::None => true,
        },
    decreases n,
{
    if n == 0 {
    } else if s.len() < w {
    } else {
        lemma_parse_uints_consumed(s.skip(w as int), (n - 1) as nat, w);
    }
}

/// Splits number parsing at an element boundary: parsing `i + j`
/// elements is parsing `i`, then `j` more where those left off.
pub proof fn lemma_parse_uints_append(s: Seq<u8>, i: nat, j: nat, w: nat)
    requires
        1 <= w,
        parse_uints(s, i, w) is Some,
    ensures
        ({
            let (vs1, c1) = parse_uints(s, i, w)->Some_0;
            parse_uints(s, i + j, w) == match parse_uints(s.skip(c1), j, w) {
                Option::Some((vs2, c2)) => Option::Some((vs1 + vs2, c1 + c2)),
                Option::None => Option::None::<(Seq<u128>, int)>,
            }
        }),
    decreases i,
{
    let (vs1, c1) = parse_uints(s, i, w)->Some_0;
    if i == 0 {
        assert(s.skip(0) =~= s);
        match parse_uints(s, j, w) {
            Option::Some((vs2, c2)) => {
                assert(vs1 + vs2 =~= vs2);
            },
            Option::None => {},
        }
    } else {
        let x = nat_of_be(s.take(w as int)) as u128;
        let (t1, m1) = parse_uints(s.skip(w as int), (i - 1) as nat, w)->Some_0;
        lemma_parse_uints_consumed(s.skip(w as int), (i - 1) as nat, w);
        lemma_parse_uints_append(s.skip(w as int), (i - 1) as nat, j, w);
        assert(s.skip(w as int).skip(m1) =~= s.skip(w + m1));
        match parse_uints(s.skip(c1), j, w) {
            Option::Some((vs2, c2)) => {
                assert((seq![x] + t1) + vs2 =~= seq![x] + (t1 + vs2));
            },
            Option::None => {},
        }
    }
}

/// Splits string parsing at an element boundary: parsing `i + j`
/// strings is parsing `i`, then `j` more where those left off.
pub proof fn lemma_parse_str_blocks_append(s: Seq<u8>, i: nat, j: nat)
    requires
        parse_str_blocks(s, i) is Some,
    ensures
        ({
            let (vs1, c1) = parse_str_blocks(s, i)->Some_0;
            parse_str_blocks(s, i + j) == match parse_str_blocks(s.skip(c1), j) {
                Option::Some((vs2, c2)) => Option::Some((vs1 + vs2, c1 + c2)),
                Option::None => Option::None::<(Seq<Seq<char>>, int)>,
            }
        }),
    decreases i,
{
    let (vs1, c1) = parse_str_blocks(s, i)->Some_0;
    if i == 0 {
        assert(s.skip(0) =~= s);
        match parse_str_blocks(s, j) {
            Option::Some((vs2, c2)) => {
                assert(vs1 + vs2 =~= vs2);
            },
            Option::None => {},
        }
    } else {
        let (c, k) = parse_str_block(s)->Some_0;
        let (t1, m1) = parse_str_blocks(s.skip(k), (i - 1) as nat)->Some_0;
        lemma_parse_str_blocks_bounds(s.skip(k), (i - 1) as nat);
        lemma_parse_str_blocks_append(s.skip(k), (i - 1) as nat, j);
        assert(s.skip(k).skip(m1) =~= s.skip(k + m1));
        match parse_str_blocks(s.skip(c1), j) {
            Option::Some((vs2, c2)) => {
                assert((seq![c] + t1) + vs2 =~= seq![c] + (t1 + vs2));
            },
            Option::None => {},
        }
    }
}

/// Every successfully parsed number fits its width, and parsing
/// consumes bytes within the input.
pub proof fn lemma_parse_uints_bounds(s: Seq<u8>, n: nat, w: nat)
    requires
        1 <= w <= 16,
    ensures
        match parse_uints(s, n, w) {
            Option::Some((ns, m)) => ns.len() == n && 0 <= m <= s.len() && (forall|i: int|
                0 <= i < ns.len() ==> (#[trigger] ns[i] as nat) < pow256(w)),
            Option::None => true,
        },
    decreases n,
{
    if n == 0 {
    } else if s.len() < w {
    } else {
        lemma_nat_of_be_bound(s.take(w as int));
        lemma_pow256_mono(w, 16);
        lemma_pow256_vals();
        lemma_parse_uints_bounds(s.skip(w as int), (n - 1) as nat, w);
    }
}

/// Parsing strings consumes bytes within the input.
pub proof fn lemma_parse_str_blocks_bounds(s: Seq<u8>, n: nat)
    ensures
        match parse_str_blocks(s, n) {
            Option::Some((vs, m)) => vs.len() == n && 0 <= m <= s.len(),
            Option::None => true,
        },
    decreases n,
{
    if n == 0 {
    } else {
        match parse_str_block(s) {
            Option::Some((c, k)) => {
                lemma_parse_str_blocks_bounds(s.skip(k), (n - 1) as nat);
            },
            Option::None => {},
        }
    }
}

/// Value parsing consumes at least the tag byte and never more bytes
/// than the input holds.
#[verifier::rlimit(100)]
#[verifier::spinoff_prover]
pub proof fn lemma_parse_value_at_bounds(s: Seq<u8>)
    ensures
        match parse_value_at(s) {
            Option::Some((v, m)) => 1 <= m <= s.len(),
            Option::None => true,
        },
{
    if s.len() >= 1 {
        let body = s.skip(1);
        if body.len() >= 8 {
            let n = nat_of_be(body.take(8));
            lemma_parse_str_blocks_bounds(body.skip(8), n);
            lemma_parse_uints_bounds(body.skip(8), n, 1);
            lemma_parse_uints_bounds(body.skip(8), n, 2);
            lemma_parse_uints_bounds(body.skip(8), n, 4);
            lemma_parse_uints_bounds(body.skip(8), n, 8);
            lemma_parse_uints_bounds(body.skip(8), n, 16);
        }
    }
}

/// Reads one length-prefixed string stored at `pos`.
pub(crate) fn parse_str_block_exec(b: &Vec<u8>, pos: usize) -> (r: Option<(String, usize)>)
    requires
        pos <= b@.len(),
    ensures
        match r {
            Option::Some((st, end)) => pos <= end <= b@.len() && parse_str_block(
                b@.skip(pos as int),
            ) == Option::Some((st@, end - pos)),
            Option::None => parse_str_block(b@.skip(pos as int)) is None,
        },
{
    let ghost s = b@.skip(pos as int);
    let blen = b.len();
    let remaining = blen - pos;
    if remaining < 8 {
        return None;
    }
    let l128 = read_be(b, pos, 8);
    proof {
        assert(s.take(8) =~= b@.subrange(pos as int, pos + 8));
    }
    if l128 > (remaining - 8) as u128 {
        return None;
    }
    let l = l128 as usize;
    let bytes = copy_range(b, pos + 8, pos + 8 + l);
    proof {
        assert(bytes@ =~= s.subrange(8, 8 + l128 as int));
    }
    match string_from_utf8(bytes) {
        Some(st) => {
            proof {
                encode_utf8_valid_utf8(st@);
                encode_utf8_decode_utf8(st@);
            }
            Some((st, pos + 8 + l))
        },
        None => None,
    }
}

/// Reads `n` fixed-width big-endian numbers stored at `pos`.
pub(crate) fn parse_uints_exec(b: &Vec<u8>, pos: usize, n: u128, w: usize) -> (r: Option<
    (Vec<u128>, usize),
>)
    requires
        pos <= b@.len(),
        1 <= w <= 16,
    ensures
        match r {
            Option::Some((vs, end)) => pos <= end <= b@.len() && parse_uints(
                b@.skip(pos as int),
                n as nat,
                w as nat,
            ) == Option::Some((vs@, end - pos)),
            Option::None => parse_uints(b@.skip(pos as int), n as nat, w as nat) is None,
        },
{
    let ghost s = b@.skip(pos as int);
    let blen = b.len();
    let mut vs: Vec<u128> = Vec::new();
    let mut cur: usize = pos;
    let mut i: u128 = 0;
    while i < n
        invariant
            pos <= cur <= blen,
            blen == b@.len(),
            i <= n,
            1 <= w <= 16,
            s == b@.skip(pos as int),
            parse_uints(s, i as nat, w as nat) == Option::Some((vs@, cur - pos as int)),
        decreases n - i,
    {
        let remaining = blen - cur;
        if remaining < w {
            proof {
                lemma_parse_uints_append(s, i as nat, (n - i) as nat, w as nat);
                assert(s.skip(cur - pos as int) =~= b@.skip(cur as int));
                assert(b@.skip(cur as int).len() < w as nat);
            }
            return None;
        }
        let x = read_be(b, cur, w);
        proof {
            lemma_parse_uints_append(s, i as nat, 1, w as nat);
            let tail = s.skip(cur - pos as int);
            assert(tail =~= b@.skip(cur as int));
            assert(tail.take(w as int) =~= b@.subrange(cur as int, cur + w));
            assert(tail.skip(w as int).len() >= 0);
            assert(parse_uints(tail.skip(w as int), 0, w as nat) == Option::Some(
                (Seq::<u128>::empty(), 0int),
            ));
            assert(seq![x] + Seq::<u128>::empty() =~= seq![x]);
            assert(parse_uints(tail, 1, w as nat) == Option::Some((seq![x], w as int)));
            assert(vs@ + seq![x] =~= vs@.push(x));
        }
        vs.push(x);
        cur = cur + w;
        i = i + 1;
    }
    Some((vs, cur))
}

/// Reads `n` length-prefixed strings stored at `pos`.
pub(crate) fn parse_str_blocks_exec(b: &Vec<u8>, pos: usize, n: u128) -> (r: Option<
    (Vec<String>, usize),
>)
    requires
        pos <= b@.len(),
    ensures
        match r {
            Option::Some((vs, end)) => pos <= end <= b@.len() && parse_str_blocks(
                b@.skip(pos as int),
                n as nat,
            ) == Option::Some((vs.deep_view(), end - pos)),
            Option::None => parse_str_blocks(b@.skip(pos as int), n as nat) is None,
        },
{
    let ghost s = b@.skip(pos as int);
    let blen = b.len();
    let mut vs: Vec<String> = Vec::new();
    let mut cur: usize = pos;
    let mut i: u128 = 0;
    while i < n
        invariant
            pos <= cur <= blen,
            blen == b@.len(),
            i <= n,
            s == b@.skip(pos as int),
            parse_str_blocks(s, i as nat) == Option::Some((vs.deep_view(), cur - pos as int)),
        decreases n - i,
    {
        match parse_str_block_exec(b, cur) {
            Some((st, end)) => {
                let ghost dv = vs.deep_view();
                let ghost stv = st@;
                proof {
                    lemma_parse_str_blocks_append(s, i as nat, 1);
                    let tail = s.skip(cur - pos as int);
                    assert(tail =~= b@.skip(cur as int));
                    let k = end - cur as int;
                    assert(parse_str_blocks(tail.skip(k), 0) == Option::Some(
                        (Seq::<Seq<char>>::empty(), 0int),
                    ));
                    assert(seq![stv] + Seq::<Seq<char>>::empty() =~= seq![stv]);
                    assert(parse_str_blocks(tail, 1) == Option::Some((seq![stv], k)));
                }
                vs.push(st);
                proof {
                    assert(vs.deep_view() =~= dv + seq![stv]);
                }
                cur = end;
                i = i + 1;
            },
            None => {
                proof {
                    lemma_parse_str_blocks_append(s, i as nat, (n - i) as nat);
                    assert(s.skip(cur - pos as int) =~= b@.skip(cur as int));
                }
                return None;
            },
        }
    }
    Some((vs, cur))
}

/// Narrows parsed numbers to bytes.
pub(crate) fn to_vec_u8(vs: &Vec<u128>) -> (r: Vec<u8>)
    requires
        forall|j: int| 0 <= j < vs@.len() ==> (#[trigger] vs@[j] as nat) < pow256(1),
    ensures
        r@ == vs@.map_values(|x: u128| x as u8),
{
    proof {
        lemma_pow256_vals();
    }
    let mut r: Vec<u8> = Vec::new();
    let mut i: usize = 0;
    while i < vs.len()
        invariant
            i <= vs@.len(),
            r@.len() == i,
            forall|j: int| 0 <= j < vs@.len() ==> (#[trigger] vs@[j]) < 0x100,
            forall|j: int| 0 <= j < i ==> r@[j] == (#[trigger] vs@[j]) as u8,
        decreases vs@.len() - i,
    {
        r.push(vs[i] as u8);
        i = i + 1;
    }
    assert(r@ =~= vs@.map_values(|x: u128| x as u8));
    r
}

/// Narrows parsed numbers to sixteen-bit values.
pub(crate) fn to_vec_u16(vs: &Vec<u128>) -> (r: Vec<u16>)
    requires
        forall|j: int| 0 <= j < vs@.len() ==> (#[trigger] vs@[j] as nat) < pow256(2),
    ensures
        r@ == vs@.map_values(|x: u128| x as u16),
{
    proof {
        lemma_pow256_vals();
    }
    let mut r: Vec<u16> = Vec::new();
    let mut i: usize = 0;
    while i < vs.len()
        invariant
            i <= vs@.len(),
            r@.len() == i,
            forall|j: int| 0 <= j < vs@.len() ==> (#[trigger] vs@[j]) < 0x10000,
            forall|j: int| 0 <= j < i ==> r@[j] == (#[trigger] vs@[j]) as u16,
        decreases vs@.len() - i,
    {
        r.push(vs[i] as u16);
        i = i + 1;
    }
    assert(r@ =~= vs@.map_values(|x: u128| x as u16));
    r
}

/// Narrows parsed numbers to thirty-two-bit values.
pub(crate) fn to_vec_u32(vs: &Vec<u128>) -> (r: Vec<u32>)
    requires
        forall|j: int| 0 <= j < vs@.len() ==> (#[trigger] vs@[j] as nat) < pow256(4),
    ensures
        r@ == vs@.map_values(|x: u128| x as u32),
{
    proof {
        lemma_pow256_vals();
    }
    let mut r: Vec<u32> = Vec::new();
    let mut i: usize = 0;
    while i < vs.len()
        invariant
            i <= vs@.len(),
            r@.len() == i,
            forall|j: int| 0 <= j < vs@.len() ==> (#[trigger] vs@[j]) < 0x100000000,
            forall|j: int| 0 <= j < i ==> r@[j] == (#[trigger] vs@[j]) as u32,
        decreases vs@.len() - i,
    {
        r.push(vs[i] as u32);
        i = i + 1;
    }
    assert(r@ =~= vs@.map_values(|x: u128| x as u32));
    r
}

/// Narrows parsed numbers to sixty-four-bit values.
pub(crate) fn to_vec_u64(vs: &Vec<u128>) -> (r: Vec<u64>)
    requires
        forall|j: int| 0 <= j < vs@.len() ==> (#[trigger] vs@[j] as nat) < pow256(8),
    ensures
        r@ == vs@.map_values(|x: u128| x as u64),
{
    proof {
        lemma_pow256_vals();
    }
    let mut r: Vec<u64> = Vec::new();
    let mut i: usize = 0;
    while i < vs.len()
        invariant
            i <= vs@.len(),
            r@.len() == i,
            forall|j: int| 0 <= j < vs@.len() ==> (#[trigger] vs@[j]) < 0x10000000000000000,
            forall|j: int| 0 <= j < i ==> r@[j] == (#[trigger] vs@[j]) as u64,
        decreases vs@.len() - i,
    {
        r.push(vs[i] as u64);
        i = i + 1;
    }
    assert(r@ =~= vs@.map_values(|x: u128| x as u64));
    r
}

/// Reinterprets parsed bytes as signed bytes.
pub(crate) fn to_vec_i8(vs: &Vec<u128>) -> (r: Vec<i8>)
    requires
        forall|j: int| 0 <= j < vs@.len() ==> (#[trigger] vs@[j] as nat) < pow256(1),
    ensures
        r@ == vs@.map_values(|x: u128| i8_of_u8(x as u8)),
{
    proof {
        lemma_pow256_vals();
    }
    let mut r: Vec<i8> = Vec::new();
    let mut i: usize = 0;
    while i < vs.len()
        invariant
            i <= vs@.len(),
            r@.len() == i,
            forall|j: int| 0 <= j < vs@.len() ==> (#[trigger] vs@[j]) < 0x100,
            forall|j: int| 0 <= j < i ==> r@[j] == i8_of_u8((#[trigger] vs@[j]) as u8),
        decreases vs@.len() - i,
    {
        r.push(u8_to_i8(vs[i] as u8));
        i = i + 1;
    }
    assert(r@ =~= vs@.map_values(|x: u128| i8_of_u8(x as u8)));
    r
}

/// Reinterprets parsed numbers as signed sixteen-bit values.
pub(crate) fn to_vec_i16(vs: &Vec<u128>) -> (r: Vec<i16>)
    requires
        forall|j: int| 0 <= j < vs@.len() ==> (#[trigger] vs@[j] as nat) < pow256(2),
    ensures
        r@ == vs@.map_values(|x: u128| i16_of_u16(x as u16)),
{
    proof {
        lemma_pow256_vals();
    }
    let mut r: Vec<i16> = Vec::new();
    let mut i: usize = 0;
    while i < vs.len()
        invariant
            i <= vs@.len(),
            r@.len() == i,
            forall|j: int| 0 <= j < vs@.len() ==> (#[trigger] vs@[j]) < 0x10000,
            forall|j: int| 0 <= j < i ==> r@[j] == i16_of_u16((#[trigger] vs@[j]) as u16),
        decreases vs@.len() - i,
    {
        r.push(u16_to_i16(vs[i] as u16));
        i = i + 1;
    }
    assert(r@ =~= vs@.map_values(|x: u128| i16_of_u16(x as u16)));
    r
}

/// Reinterprets parsed numbers as signed thirty-two-bit values.
pub(crate) fn to_vec_i32(vs: &Vec<u128>) -> (r: Vec<i32>)
    requires
        forall|j: int| 0 <= j < vs@.len() ==> (#[trigger] vs@[j] as nat) < pow256(4),
    ensures
        r@ == vs@.map_values(|x: u128| i32_of_u32(x as u32)),
{
    proof {
        lemma_pow256_vals();
    }
    let mut r: Vec<i32> = Vec::new();
    let mut i: usize = 0;
    while i < vs.len()
        invariant
            i <= vs@.len(),
            r@.len() == i,
            forall|j: int| 0 <= j < vs@.len() ==> (#[trigger] vs@[j]) < 0x100000000,
            forall|j: int| 0 <= j < i ==> r@[j] == i32_of_u32((#[trigger] vs@[j]) as u32),
        decreases vs@.len() - i,
    {
        r.push(u32_to_i32(vs[i] as u32));
        i = i + 1;
    }
    assert(r@ =~= vs@.map_values(|x: u128| i32_of_u32(x as u32)));
    r
}

/// Reinterprets parsed numbers as signed sixty-four-bit values.
pub(crate) fn to_vec_i64(vs: &Vec<u128>) -> (r: Vec<i64>)
    requires
        forall|j: int| 0 <= j < vs@.len() ==> (#[trigger] vs@[j] as nat) < pow256(8),
    ensures
        r@ == vs@.map_values(|x: u128| i64_of_u64(x as u64)),
{
    proof {
        lemma_pow256_vals();
    }
    let mut r: Vec<i64> = Vec::new();
    let mut i: usize = 0;
    while i < vs.len()
        invariant
            i <= vs@.len(),
            r@.len() == i,
            forall|j: int| 0 <= j < vs@.len() ==> (#[trigger] vs@[j]) < 0x10000000000000000,
            forall|j: int| 0 <= j < i ==> r@[j] == i64_of_u64((#[trigger] vs@[j]) as u64),
        decreases vs@.len() - i,
    {
        r.push(u64_to_i64(vs[i] as u64));
        i = i + 1;
    }
    assert(r@ =~= vs@.map_values(|x: u128| i64_of_u64(x as u64)));
    r
}

/// Parses one value stored at `pos`, returning it with the position
/// just past its encoding.
pub fn parse_value(b: &Vec<u8>, pos: usize) -> (r: Option<(Value, usize)>)
    requires
        pos <= b@.len(),
    ensures
        match r {
            Option::Some((v, end)) => pos <= end <= b@.len() && parse_value_at(
                b@.skip(pos as int),
            ) == Option::Some((v@, end - pos)),
            Option::None => parse_value_at(b@.skip(pos as int)) is None,
        },
{
    proof {
        lemma_pow256_vals();
    }
    let ghost s = b@.skip(pos as int);
    let blen = b.len();
    if pos >= blen {
        return None;
    }
    let tag = b[pos];
    let ghost body = s.skip(1);
    proof {
        assert(s[0] == b@[pos as int]);
        assert(body =~= b@.skip(pos + 1));
    }
    let remaining = blen - pos;
    if tag == TAG_STRING {
        match parse_str_block_exec(b, pos + 1) {
            Some((st, end)) => Some((Value::String(st), end)),
            None => None,
        }
    } else if tag == TAG_UINT8 {
        if remaining < 2 {
            None
        } else {
            proof {
                assert(body.take(1) =~= b@.subrange(pos + 1, pos + 2));
                lemma_nat_of_be_bound(body.take(1));
            }
            let x = read_be(b, pos + 1, 1);
            Some((Value::Uint8(x as u8), pos + 2))
        }
    } else if tag == TAG_UINT16 {
        if remaining < 3 {
            None
        } else {
            proof {
                assert(body.take(2) =~= b@.subrange(pos + 1, pos + 3));
                lemma_nat_of_be_bound(body.take(2));
            }
            let x = read_be(b, pos + 1, 2);
            Some((Value::Uint16(x as u16), pos + 3))
        }
    } else if tag == TAG_UINT32 {
        if remaining < 5 {
            None
        } else {
            proof {
                assert(body.take(4) =~= b@.subrange(pos + 1, pos + 5));
                lemma_nat_of_be_bound(body.take(4));
            }
            let x = read_be(b, pos + 1, 4);
            Some((Value::Uint32(x as u32), pos + 5))
        }
    } else if tag == TAG_UINT64 {
        if remaining < 9 {
            None
        } else {
            proof {
                assert(body.take(8) =~= b@.subrange(pos + 1, pos + 9));
                lemma_nat_of_be_bound(body.take(8));
            }
            let x = read_be(b, pos + 1, 8);
            Some((Value::Uint64(x as u64), pos + 9))
        }
    } else if tag == TAG_UINT128 {
        if remaining < 17 {
            None
        } else {
            proof {
                assert(body.take(16) =~= b@.subrange(pos + 1, pos + 17));
                lemma_nat_of_be_bound(body.take(16));
            }
            let x = read_be(b, pos + 1, 16);
            Some((Value::Uint128(x), pos + 17))
        }
    } else if tag == TAG_INT8 {
        if remaining < 2 {
            None
        } else {
            proof {
                assert(body.take(1) =~= b@.subrange(pos + 1, pos + 2));
                lemma_nat_of_be_bound(body.take(1));
            }
            let x = read_be(b, pos + 1, 1);
            Some((Value::Int8(u8_to_i8(x as u8)), pos + 2))
        }
    } else if tag == TAG_INT16 {
        if remaining < 3 {
            None
        } else {
            proof {
                assert(body.take(2) =~= b@.subrange(pos + 1, pos + 3));
                lemma_nat_of_be_bound(body.take(2));
            }
            let x = read_be(b, pos + 1, 2);
            Some((Value::Int16(u16_to_i16(x as u16)), pos + 3))
        }
    } else if tag == TAG_INT32 {
        if remaining < 5 {
            None
        } else {
            proof {
                assert(body.take(4) =~= b@.subrange(pos + 1, pos + 5));
                lemma_nat_of_be_bound(body.take(4));
            }
            let x = read_be(b, pos + 1, 4);
            Some((Value::Int32(u32_to_i32(x as u32)), pos + 5))
        }
    } else if tag == TAG_INT64 {
        if remaining < 9 {
            None
        } else {
            proof {
                assert(body.take(8) =~= b@.subrange(pos + 1, pos + 9));
                lemma_nat_of_be_bound(body.take(8));
            }
            let x = read_be(b, pos + 1, 8);
            Some((Value::Int64(u64_to_i64(x as u64)), pos + 9))
        }
    } else if tag == TAG_VEC_STRING {
        if remaining < 9 {
            None
        } else {
            proof {
                assert(body.take(8) =~= b@.subrange(pos + 1, pos + 9));
                assert(body.skip(8) =~= b@.skip(pos + 9));
            }
            let n = read_be(b, pos + 1, 8);
            match parse_str_blocks_exec(b, pos + 9, n) {
                Some((vs, end)) => Some((Value::VecString(vs), end)),
                None => None,
            }
        }
    } else if tag == TAG_VEC_UINT8 {
        if remaining < 9 {
            None
        } else {
            proof {
                assert(body.take(8) =~= b@.subrange(pos + 1, pos + 9));
                assert(body.skip(8) =~= b@.skip(pos + 9));
            }
            let n = read_be(b, pos + 1, 8);
            match parse_uints_exec(b, pos + 9, n, 1) {
                Some((ns, end)) => {
                    proof {
                        lemma_parse_uints_bounds(b@.skip(pos + 9), n as nat, 1);
                    }
                    Some((Value::VecUint8(to_vec_u8(&ns)), end))
                },
                None => None,
            }
        }
    } else if tag == TAG_VEC_UINT16 {
        if remaining < 9 {
            None
        } else {
            proof {
                assert(body.take(8) =~= b@.subrange(pos + 1, pos + 9));
                assert(body.skip(8) =~= b@.skip(pos + 9));
            }
            let n = read_be(b, pos + 1, 8);
            match parse_uints_exec(b, pos + 9, n, 2) {
                Some((ns, end)) => {
                    proof {
                        lemma_parse_uints_bounds(b@.skip(pos + 9), n as nat, 2);
                    }
                    Some((Value::VecUint16(to_vec_u16(&ns)), end))
                },
                None => None,
            }
        }
    } else if tag == TAG_VEC_UINT32 {
        if remaining < 9 {
            None
        } else {
            proof {
                assert(body.take(8) =~= b@.subrange(pos + 1, pos + 9));
                assert(body.skip(8) =~= b@.skip(pos + 9));
            }
            let n = read_be(b, pos + 1, 8);
            match parse_uints_exec(b, pos + 9, n, 4) {
                Some((ns, end)) => {
                    proof {
                        lemma_parse_uints_bounds(b@.skip(pos + 9), n as nat, 4);
                    }
                    Some((Value::VecUint32(to_vec_u32(&ns)), end))
                },
                None => None,
            }
        }
    } else if tag == TAG_VEC_UINT64 {
        if remaining < 9 {
            None
        } else {
            proof {
                assert(body.take(8) =~= b@.subrange(pos + 1, pos + 9));
                assert(body.skip(8) =~= b@.skip(pos + 9));
            }
            let n = read_be(b, pos + 1, 8);
            match parse_uints_exec(b, pos + 9, n, 8) {
                Some((ns, end)) => {
                    proof {
                        lemma_parse_uints_bounds(b@.skip(pos + 9), n as nat, 8);
                    }
                    Some((Value::VecUint64(to_vec_u64(&ns)), end))
                },
                None => None,
            }
        }
    } else if tag == TAG_VEC_UINT128 {
        if remaining < 9 {
            None
        } else {
            proof {
                assert(body.take(8) =~= b@.subrange(pos + 1, pos + 9));
                assert(body.skip(8) =~= b@.skip(pos + 9));
            }
            let n = read_be(b, pos + 1, 8);
            match parse_uints_exec(b, pos + 9, n, 16) {
                Some((ns, end)) => Some((Value::VecUint128(ns), end)),
                None => None,
            }
        }
    } else if tag == TAG_VEC_INT8 {
        if remaining < 9 {
            None
        } else {
            proof {
                assert(body.take(8) =~= b@.subrange(pos + 1, pos + 9));
                assert(body.skip(8) =~= b@.skip(pos + 9));
            }
            let n = read_be(b, pos + 1, 8);
            match parse_uints_exec(b, pos + 9, n, 1) {
                Some((ns, end)) => {
                    proof {
                        lemma_parse_uints_bounds(b@.skip(pos + 9), n as nat, 1);
                    }
                    Some((Value::VecInt8(to_vec_i8(&ns)), end))
                },
                None => None,
            }
        }
    } else if tag == TAG_VEC_INT16 {
        if remaining < 9 {
            None
        } else {
            proof {
                assert(body.take(8) =~= b@.subrange(pos + 1, pos + 9));
                assert(body.skip(8) =~= b@.skip(pos + 9));
            }
            let n = read_be(b, pos + 1, 8);
            match parse_uints_exec(b, pos + 9, n, 2) {
                Some((ns, end)) => {
                    proof {
                        lemma_parse_uints_bounds(b@.skip(pos + 9), n as nat, 2);
                    }
                    Some((Value::VecInt16(to_vec_i16(&ns)), end))
                },
                None => None,
            }
        }
    } else if tag == TAG_VEC_INT32 {
        if remaining < 9 {
            None
        } else {
            proof {
                assert(body.take(8) =~= b@.subrange(pos + 1, pos + 9));
                assert(body.skip(8) =~= b@.skip(pos + 9));
            }
            let n = read_be(b, pos + 1, 8);
            match parse_uints_exec(b, pos + 9, n, 4) {
                Some((ns, end)) => {
                    proof {
                        lemma_parse_uints_bounds(b@.skip(pos + 9), n as nat, 4);
                    }
                    Some((Value::VecInt32(to_vec_i32(&ns)), end))
                },
                None => None,
            }
        }
    } else if tag == TAG_VEC_INT64 {
        if remaining < 9 {
            None
        } else {
            proof {
                assert(body.take(8) =~= b@.subrange(pos + 1, pos + 9));
                assert(body.skip(8) =~= b@.skip(pos + 9));
            }
            let n = read_be(b, pos + 1, 8);
            match parse_uints_exec(b, pos + 9, n, 8) {
                Some((ns, end)) => {
                    proof {
                        lemma_parse_uints_bounds(b@.skip(pos + 9), n as nat, 8);
                    }
                    Some((Value::VecInt64(to_vec_i64(&ns)), end))
                },
                None => None,
            }
        }
    } else if tag == TAG_ADDRESS {
        match parse_str_block_exec(b, pos + 1) {
            Some((st, end)) => {
                if end < blen {
                    let kind = b[end];
                    proof {
                        assert(body[end - (pos + 1) as int] == b@[end as int]);
                    }
                    Some((Value::Address(Address::new(st, kind)), end + 1))
                } else {
                    None
                }
            },
            None => None,
        }
    } else {
        None
    }
}

/// Decodes one structurally encoded value, requiring that the bytes
/// hold exactly one encoding and nothing more.
pub fn decode_structural(b: &Vec<u8>) -> (r: Option<Value>)
    ensures
        match r {
            Option::Some(v) => struct_value(b@) == Option::Some(v@),
            Option::None => struct_value(b@) is None,
        },
{
    proof {
        assert(b@.skip(0) =~= b@);
    }
    match parse_value(b, 0) {
        Some((v, end)) => {
            if end == b.len() {
                Some(v)
            } else {
                None
            }
        },
        None => None,
    }
}

/// Parsed numbers re-encode to exactly the bytes they were read from.
pub proof fn lemma_parse_uints_sound(s: Seq<u8>, n: nat, w: nat)
    requires
        1 <= w <= 16,
    ensures
        match parse_uints(s, n, w) {
            Option::Some((ns, m)) => concat_be(ns, w) == s.take(m) && m == concat_be(ns, w).len(),
            Option::None => true,
        },
    decreases n,
{
    if n == 0 {
        match parse_uints(s, n, w) {
            Option::Some((ns, m)) => {
                assert(concat_be(ns, w) =~= s.take(0));
            },
            Option::None => {},
        }
    } else if s.len() < w {
    } else {
        lemma_nat_of_be_bound(s.take(w as int));
        lemma_pow256_mono(w, 16);
        lemma_pow256_vals();
        let x = nat_of_be(s.take(w as int)) as u128;
        lemma_be_bytes_of_nat_of_be(s.take(w as int));
        lemma_parse_uints_sound(s.skip(w as int), (n - 1) as nat, w);
        lemma_parse_uints_consumed(s.skip(w as int), (n - 1) as nat, w);
        match parse_uints(s.skip(w as int), (n - 1) as nat, w) {
            Option::Some((t, m1)) => {
                lemma_concat_be_first(seq![x] + t, w);
                assert((seq![x] + t)[0] == x);
                assert((seq![x] + t).drop_first() =~= t);
                assert(be_bytes(x as nat, w) == s.take(w as int));
                assert(s.take(w + m1) =~= s.take(w as int) + s.skip(w as int).take(m1));
                assert(concat_be(seq![x] + t, w) =~= s.take(w + m1));
            },
            Option::None => {},
        }
    }
}

/// A parsed string re-encodes to exactly the bytes it was read from,
/// and its byte length fits the eight-byte prefix it came with.
pub proof fn lemma_parse_str_block_sound(s: Seq<u8>)
    ensures
        match parse_str_block(s) {
            Option::Some((c, k)) => string_block(c) == s.take(k) && k == string_block(c).len()
                && encode_utf8(c).len() < pow256(8),
            Option::None => true,
        },
{
    if s.len() >= 8 {
        let l = nat_of_be(s.take(8)) as int;
        lemma_nat_of_be_bound(s.take(8));
        lemma_pow256_vals();
        if s.len() >= 8 + l && valid_utf8(s.subrange(8, 8 + l)) {
            let bytes = s.subrange(8, 8 + l);
            decode_utf8_encode_utf8(bytes);
            let c = decode_utf8(bytes);
            assert(encode_utf8(c) == bytes);
            lemma_be_bytes_of_nat_of_be(s.take(8));
            assert(string_block(c) =~= s.take(8 + l));
        }
    }
}

/// Parsed strings re-encode to exactly the bytes they were read from.
pub proof fn lemma_parse_str_blocks_sound(s: Seq<u8>, n: nat)
    ensures
        match parse_str_blocks(s, n) {
            Option::Some((vs, m)) => concat_str_blocks(vs) == s.take(m) && m == concat_str_blocks(
                vs,
            ).len() && (forall|i: int|
                0 <= i < vs.len() ==> encode_utf8(#[trigger] vs[i]).len() < pow256(8)),
            Option::None => true,
        },
    decreases n,
{
    if n == 0 {
        match parse_str_blocks(s, n) {
            Option::Some((vs, m)) => {
                assert(concat_str_blocks(vs) =~= s.take(0));
            },
            Option::None => {},
        }
    } else {
        lemma_parse_str_block_sound(s);
        match parse_str_block(s) {
            Option::Some((c, k)) => {
                lemma_parse_str_blocks_sound(s.skip(k), (n - 1) as nat);
                lemma_parse_str_blocks_bounds(s.skip(k), (n - 1) as nat);
                match parse_str_blocks(s.skip(k), (n - 1) as nat) {
                    Option::Some((t, m1)) => {
                        lemma_concat_str_blocks_first(seq![c] + t);
                        assert((seq![c] + t)[0] == c);
                        assert((seq![c] + t).drop_first() =~= t);
                        assert(s.take(k + m1) =~= s.take(k) + s.skip(k).take(m1));
                        assert(concat_str_blocks(seq![c] + t) =~= s.take(k + m1));
                        assert forall|i: int| 0 <= i < (seq![c] + t).len() implies encode_utf8(
                            #[trigger] (seq![c] + t)[i],
                        ).len() < pow256(8) by {
                            if i > 0 {
                                assert((seq![c] + t)[i] == t[i - 1]);
                            }
                        }
                    },
                    Option::None => {},
                }
            },
            Option::None => {},
        }
    }
}

/// A parsed value re-encodes to exactly the bytes it was read from,
/// and every length it stores fits its eight-byte prefix.
#[verifier::rlimit(100)]
#[verifier::spinoff_prover]
pub proof fn lemma_parse_value_at_sound(s: Seq<u8>)
    ensures
        match parse_value_at(s) {
            Option::Some((v, m)) => struct_bytes(v) == s.take(m) && m == struct_bytes(v).len()
                && value_in_range(v),
            Option::None => true,
        },
{
    lemma_pow256_vals();
    if s.len() >= 1 {
        let tag = s[0];
        let body = s.skip(1);
        lemma_parse_str_block_sound(body);
        let n = nat_of_be(body.take(8));
        if body.len() >= 8 {
            lemma_nat_of_be_bound(body.take(8));
            lemma_be_bytes_of_nat_of_be(body.take(8));
            lemma_parse_str_blocks_sound(body.skip(8), n);
            lemma_parse_str_blocks_bounds(body.skip(8), n);
            lemma_parse_uints_sound(body.skip(8), n, 1);
            lemma_parse_uints_sound(body.skip(8), n, 2);
            lemma_parse_uints_sound(body.skip(8), n, 4);
            lemma_parse_uints_sound(body.skip(8), n, 8);
            lemma_parse_uints_sound(body.skip(8), n, 16);
            lemma_parse_uints_bounds(body.skip(8), n, 1);
            lemma_parse_uints_bounds(body.skip(8), n, 2);
            lemma_parse_uints_bounds(body.skip(8), n, 4);
            lemma_parse_uints_bounds(body.skip(8), n, 8);
            lemma_parse_uints_bounds(body.skip(8), n, 16);
        }
        if body.len() >= 16 {
            lemma_nat_of_be_bound(body.take(16));
            lemma_be_bytes_of_nat_of_be(body.take(16));
        }
        if body.len() >= 4 {
            lemma_nat_of_be_bound(body.take(4));
            lemma_be_bytes_of_nat_of_be(body.take(4));
        }
        if body.len() >= 2 {
            lemma_nat_of_be_bound(body.take(2));
            lemma_be_bytes_of_nat_of_be(body.take(2));
        }
        lemma_nat_of_be_bound(body.take(1));
        lemma_be_bytes_of_nat_of_be(body.take(1));
        match parse_value_at(s) {
            Option::Some((v, m)) => {
                match v {
                    ValueV::String(c) => {
                        assert(struct_bytes(v) =~= s.take(m));
                    },
                    ValueV::Uint8(x) => {
                        assert(struct_bytes(v) =~= s.take(m));
                    },
                    ValueV::Uint16(x) => {
                        assert(struct_bytes(v) =~= s.take(m));
                    },
                    ValueV::Uint32(x) => {
                        assert(struct_bytes(v) =~= s.take(m));
                    },
                    ValueV::Uint64(x) => {
                        assert(struct_bytes(v) =~= s.take(m));
                    },
                    ValueV::Uint128(x) => {
                        assert(struct_bytes(v) =~= s.take(m));
                    },
                    ValueV::Int8(x) => {
                        let u = nat_of_be(body.take(1)) as u8;
                        assert(u8_of_i8(i8_of_u8(u)) == u);
                        assert(struct_bytes(v) =~= s.take(m));
                    },
                    ValueV::Int16(x) => {
                        let u = nat_of_be(body.take(2)) as u16;
                        assert(u16_of_i16(i16_of_u16(u)) == u);
                        assert(struct_bytes(v) =~= s.take(m));
                    },
                    ValueV::Int32(x) => {
                        let u = nat_of_be(body.take(4)) as u32;
                        assert(u32_of_i32(i32_of_u32(u)) == u);
                        assert(struct_bytes(v) =~= s.take(m));
                    },
                    ValueV::Int64(x) => {
                        let u = nat_of_be(body.take(8)) as u64;
                        assert(u64_of_i64(i64_of_u64(u)) == u);
                        assert(struct_bytes(v) =~= s.take(m));
                    },
                    ValueV::VecString(vs) => {
                        assert(struct_bytes(v) =~= s.take(m));
                    },
                    ValueV::VecUint8(xs) => {
                        let ns = parse_uints(body.skip(8), n, 1)->Some_0.0;
                        assert(xs == ns.map_values(|x: u128| x as u8));
                        assert(xs.map_values(|x: u8| x as u128) =~= ns);
                        assert(struct_bytes(v) =~= s.take(m));
                    },
                    ValueV::VecUint16(xs) => {
                        let ns = parse_uints(body.skip(8), n, 2)->Some_0.0;
                        assert(xs == ns.map_values(|x: u128| x as u16));
                        assert(xs.map_values(|x: u16| x as u128) =~= ns);
                        assert(struct_bytes(v) =~= s.take(m));
                    },
                    ValueV::VecUint32(xs) => {
                        let ns = parse_uints(body.skip(8), n, 4)->Some_0.0;
                        assert(xs == ns.map_values(|x: u128| x as u32));
                        assert(xs.map_values(|x: u32| x as u128) =~= ns);
                        assert(struct_bytes(v) =~= s.take(m));
                    },
                    ValueV::VecUint64(xs) => {
                        let ns = parse_uints(body.skip(8), n, 8)->Some_0.0;
                        assert(xs == ns.map_values(|x: u128| x as u64));
                        assert(xs.map_values(|x: u64| x as u128) =~= ns);
                        assert(struct_bytes(v) =~= s.take(m));
                    },
                    ValueV::VecUint128(xs) => {
                        assert(struct_bytes(v) =~= s.take(m));
                    },
                    ValueV::VecInt8(xs) => {
                        let ns = parse_uints(body.skip(8), n, 1)->Some_0.0;
                        assert(xs == ns.map_values(|x: u128| i8_of_u8(x as u8)));
                        assert(xs.map_values(|x: i8| u8_of_i8(x) as u128) =~= ns);
                        assert(struct_bytes(v) =~= s.take(m));
                    },
                    ValueV::VecInt16(xs) => {
                        let ns = parse_uints(body.skip(8), n, 2)->Some_0.0;
                        assert(xs == ns.map_values(|x: u128| i16_of_u16(x as u16)));
                        assert(xs.map_values(|x: i16| u16_of_i16(x) as u128) =~= ns);
                        assert(struct_bytes(v) =~= s.take(m));
                    },
                    ValueV::VecInt32(xs) => {
                        let ns = parse_uints(body.skip(8), n, 4)->Some_0.0;
                        assert(xs == ns.map_values(|x: u128| i32_of_u32(x as u32)));
                        assert(xs.map_values(|x: i32| u32_of_i32(x) as u128) =~= ns);
                        assert(struct_bytes(v) =~= s.take(m));
                    },
                    ValueV::VecInt64(xs) => {
                        let ns = parse_uints(body.skip(8), n, 8)->Some_0.0;
                        assert(xs == ns.map_values(|x: u128| i64_of_u64(x as u64)));
                        assert(xs.map_values(|x: i64| u64_of_i64(x) as u128) =~= ns);
                        assert(struct_bytes(v) =~= s.take(m));
                    },
                    ValueV::Address(a) => {
                        let k = parse_str_block(body)->Some_0.1;
                        assert(body[k] == a.kind);
                        assert(struct_bytes(v) =~= s.take(m));
                    },
                }
            },
            Option::None => {},
        }
    }
}

/// The encoding is canonical: a byte string decodes to a value only
/// when it is exactly that value's structural encoding.
pub proof fn lemma_structural_canonical(s: Seq<u8>)
    ensures
        match struct_value(s) {
            Option::Some(v) => s == struct_bytes(v) && value_in_range(v),
            Option::None => true,
        },
{
    lemma_parse_value_at_sound(s);
    match parse_value_at(s) {
        Option::Some((v, m)) => {
            if m == s.len() {
                assert(s.take(m) =~= s);
            }
        },
        Option::None => {},
    }
}

} // verus!
