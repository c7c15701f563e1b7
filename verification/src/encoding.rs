//! Fixed-width big-endian byte encoding of unsigned integers, together
//! with the facts that make the structural codec invertible.
use vstd::prelude::*;

verus! {

/// 256 raised to the power `w`: the number of distinct values that
/// `w` bytes can carry.
pub open spec fn pow256(w: nat) -> nat
    decreases w,
{
    if w == 0 {
        1
    } else {
        256 * pow256((w - 1) as nat)
    }
}

/// The `w`-byte big-endian encoding of `n` (modulo `256^w`).
pub open spec fn be_bytes(n: nat, w: nat) -> Seq<u8>
    decreases w,
{
    if w == 0 {
        Seq::empty()
    } else {
        be_bytes(n / 256, (w - 1) as nat).push((n % 256) as u8)
    }
}

/// The number denoted by a big-endian byte string.
pub open spec fn nat_of_be(s: Seq<u8>) -> nat
    decreases s.len(),
{
    if s.len() == 0 {
        0
    } else {
        (nat_of_be(s.drop_last()) * 256 + s.last()) as nat
    }
}

pub proof fn lemma_pow256_pos(w: nat)
    ensures
        pow256(w) >= 1,
    decreases w,
{
    if w > 0 {
        lemma_pow256_pos((w - 1) as nat);
    }
}

pub proof fn lemma_pow256_mono(w1: nat, w2: nat)
    requires
        w1 <= w2,
    ensures
        pow256(w1) <= pow256(w2),
    decreases w2,
{
    if w1 < w2 {
        lemma_pow256_mono(w1, (w2 - 1) as nat);
        lemma_pow256_pos((w2 - 1) as nat);
    }
}

pub proof fn lemma_pow256_vals()
    ensures
        pow256(1) == 0x100,
        pow256(2) == 0x10000,
        pow256(4) == 0x100000000,
        pow256(8) == 0x10000000000000000,
        pow256(16) == 0x100000000000000000000000000000000,
{
    reveal_with_fuel(pow256, 17);
}

pub proof fn lemma_be_bytes_len(n: nat, w: nat)
    ensures
        be_bytes(n, w).len() == w,
    decreases w,
{
    if w > 0 {
        lemma_be_bytes_len(n / 256, (w - 1) as nat);
    }
}

/// Decoding inverts encoding for every value that fits in `w` bytes.
pub proof fn lemma_nat_of_be_bytes(n: nat, w: nat)
    requires
        n < pow256(w),
    ensures
        nat_of_be(be_bytes(n, w)) == n,
    decreases w,
{
    if w == 0 {
    } else {
        let rest = be_bytes(n / 256, (w - 1) as nat);
        lemma_be_bytes_len(n / 256, (w - 1) as nat);
        assert(rest.push((n % 256) as u8).drop_last() =~= rest);
        assert(n / 256 < pow256((w - 1) as nat)) by (nonlinear_arith)
            requires
                n < 256 * pow256((w - 1) as nat),
        ;
        lemma_nat_of_be_bytes(n / 256, (w - 1) as nat);
    }
}

/// Every big-endian byte string denotes a number below `256^len`.
pub proof fn lemma_nat_of_be_bound(s: Seq<u8>)
    ensures
        nat_of_be(s) < pow256(s.len()),
    decreases s.len(),
{
    if s.len() > 0 {
        lemma_nat_of_be_bound(s.drop_last());
    }
}

/// Encoding inverts decoding: the encoding is canonical.
pub proof fn lemma_be_bytes_of_nat_of_be(s: Seq<u8>)
    ensures
        be_bytes(nat_of_be(s), s.len()) == s,
    decreases s.len(),
{
    if s.len() == 0 {
        assert(be_bytes(nat_of_be(s), s.len()) =~= s);
    } else {
        let n = nat_of_be(s);
        let a = nat_of_be(s.drop_last());
        assert(n == a * 256 + s.last());
        assert(n / 256 == a && n % 256 == s.last()) by (nonlinear_arith)
            requires
                n == a * 256 + s.last(),
                0 <= s.last() < 256,
        ;
        lemma_be_bytes_of_nat_of_be(s.drop_last());
        assert(be_bytes(n, s.len()) =~= s);
    }
}

/// Appends the `w`-byte big-endian encoding of `n` to `out`.
pub fn push_be(out: &mut Vec<u8>, n: u128, w: usize)
    requires
        (n as nat) < pow256(w as nat),
    ensures
        final(out)@ == old(out)@ + be_bytes(n as nat, w as nat),
    decreases w,
{
    if w == 0 {
        assert(final(out)@ =~= old(out)@ + be_bytes(n as nat, 0));
    } else {
        proof {
            assert((n as nat) / 256 < pow256((w - 1) as nat)) by (nonlinear_arith)
                requires
                    (n as nat) < 256 * pow256((w - 1) as nat),
            ;
        }
        push_be(out, n / 256, w - 1);
        out.push((n % 256) as u8);
        assert(final(out)@ =~= old(out)@ + be_bytes(n as nat, w as nat));
    }
}

/// Reads the `w`-byte big-endian number stored at `pos`.
pub fn read_be(b: &Vec<u8>, pos: usize, w: usize) -> (r: u128)
    requires
        pos + w <= b@.len(),
        w <= 16,
    ensures
        r as nat == nat_of_be(b@.subrange(pos as int, pos + w)),
{
    let blen: usize = b.len();
    let mut acc: u128 = 0;
    let mut i: usize = 0;
    while i < w
        invariant
            i <= w,
            w <= 16,
            pos + w <= blen,
            blen == b@.len(),
            acc as nat == nat_of_be(b@.subrange(pos as int, pos + i)),
            (acc as nat) < pow256(i as nat),
        decreases w - i,
    {
        proof {
            lemma_pow256_mono((i + 1) as nat, 16);
            lemma_pow256_vals();
            assert((acc as nat) * 256 + 255 < pow256((i + 1) as nat)) by (nonlinear_arith)
                requires
                    (acc as nat) < pow256(i as nat),
                    pow256((i + 1) as nat) == 256 * pow256(i as nat),
            ;
            assert(b@.subrange(pos as int, pos + i + 1).drop_last() =~= b@.subrange(
                pos as int,
                pos + i,
            ));
        }
        acc = acc * 256 + (b[pos + i] as u128);
        i = i + 1;
    }
    assert(b@.subrange(pos as int, pos + i) =~= b@.subrange(pos as int, pos + w));
    acc
}

/// Appends every byte of `src` to `out`.
pub fn push_bytes(out: &mut Vec<u8>, src: &[u8])
    ensures
        final(out)@ == old(out)@ + src@,
{
    let mut i: usize = 0;
    while i < src.len()
        invariant
            i <= src@.len(),
            out@ == old(out)@ + src@.subrange(0, i as int),
        decreases src@.len() - i,
    {
        out.push(src[i]);
        assert(out@ =~= old(out)@ + src@.subrange(0, i + 1));
        i = i + 1;
    }
    assert(out@ =~= old(out)@ + src@);
}

/// Copies the bytes of `b` between `from` and `to` into a fresh vector.
pub fn copy_range(b: &Vec<u8>, from: usize, to: usize) -> (r: Vec<u8>)
    requires
        from <= to <= b@.len(),
    ensures
        r@ == b@.subrange(from as int, to as int),
{
    let mut out: Vec<u8> = Vec::new();
    let mut i: usize = from;
    while i < to
        invariant
            from <= i <= to <= b@.len(),
            out@ == b@.subrange(from as int, i as int),
        decreases to - i,
    {
        out.push(b[i]);
        assert(out@ =~= b@.subrange(from as int, i + 1));
        i = i + 1;
    }
    out
}

} // verus!
