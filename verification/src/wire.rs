//! Big-endian wire-format helpers shared by the SOCKS5 codec and the TLS
//! sniffer: reading length prefixes and assembling multi-byte integers.

use vstd::prelude::*;

verus! {

/// The value of `s` read as a big-endian unsigned integer.
pub open spec fn be_value(s: Seq<u8>) -> nat
    decreases s.len(),
{
    if s.len() == 0 {
        0
    } else {
        (be_value(s.drop_last()) * 256 + s.last()) as nat
    }
}

/// 256 to the power `n`: the number of values of an `n`-byte field.
pub open spec fn pow256(n: nat) -> nat
    decreases n,
{
    if n == 0 {
        1
    } else {
        256 * pow256((n - 1) as nat)
    }
}

/// `be_value` of an `n`-byte sequence is below `pow256(n)`.
pub proof fn lemma_be_value_pow_bound(s: Seq<u8>)
    ensures
        be_value(s) < pow256(s.len()),
    decreases s.len(),
{
    if s.len() > 0 {
        lemma_be_value_pow_bound(s.drop_last());
        assert(be_value(s.drop_last()) * 256 + s.last() < 256 * pow256(
            (s.len() - 1) as nat,
        )) by (nonlinear_arith)
            requires
                be_value(s.drop_last()) < pow256((s.len() - 1) as nat),
                s.last() < 256;
    }
}

/// `pow256` grows with its argument.
pub proof fn lemma_pow256_monotone(m: nat, n: nat)
    requires
        m <= n,
    ensures
        pow256(m) <= pow256(n),
    decreases n,
{
    if m < n {
        lemma_pow256_monotone(m, (n - 1) as nat);
        assert(pow256((n - 1) as nat) <= 256 * pow256((n - 1) as nat)) by (nonlinear_arith)
            requires
                pow256((n - 1) as nat) >= 0;
    }
}

/// `pow256(16)` is exactly 2^128, so a 16-byte field fits a `u128`.
pub proof fn lemma_pow256_16()
    ensures
        pow256(16) == 0x100000000000000000000000000000000nat,
{
    reveal_with_fuel(pow256, 17);
}

/// Reads the `count`-byte big-endian integer at `data[start ..]` into a
/// `u128`; wide enough for a full IPv6 address.
pub fn be_u128(data: &[u8], start: usize, count: usize) -> (r: u128)
    requires
        count <= 16,
        start + count <= data@.len(),
    ensures
        r == be_value(data@.subrange(start as int, start + count)),
    decreases count,
{
    let n = data.len();
    if count == 0 {
        proof {
            assert(data@.subrange(start as int, start as int) =~= Seq::<u8>::empty());
        }
        0
    } else {
        let prefix = be_u128(data, start, count - 1);
        proof {
            let whole = data@.subrange(start as int, start + count);
            let head = data@.subrange(start as int, start + count - 1);
            assert(whole.drop_last() =~= head);
            lemma_be_value_pow_bound(head);
            lemma_pow256_monotone(head.len(), 15);
            lemma_pow256_16();
            assert(pow256(15) * 256 == pow256(16)) by {
                reveal_with_fuel(pow256, 17);
            }
            assert(be_value(head) * 256 + 255 < pow256(16)) by (nonlinear_arith)
                requires
                    be_value(head) < pow256(15nat),
                    pow256(15nat) * 256 == pow256(16nat);
        }
        prefix * 256 + (data[start + count - 1] as u128)
    }
}

/// Reads the `count`-byte big-endian integer at `data[start ..]`.
/// Mirrors the length-prefix decoding of the sniffer: at most three bytes,
/// so the result always fits in a `usize`.
pub fn read_be(data: &[u8], start: usize, count: usize) -> (r: usize)
    requires
        count <= 3,
        start + count <= data@.len(),
    ensures
        r == be_value(data@.subrange(start as int, start + count)),
        r < 0x1000000,
{
    let v = be_u128(data, start, count);
    proof {
        lemma_be_value_pow_bound(data@.subrange(start as int, start + count));
        lemma_pow256_monotone(data@.subrange(start as int, start + count).len(), 3);
        reveal_with_fuel(pow256, 4);
    }
    v as usize
}

/// Reads the four-byte big-endian integer at `data[start ..]`.
pub fn be_u32(data: &[u8], start: usize) -> (r: u32)
    requires
        start + 4 <= data@.len(),
    ensures
        r == be_value(data@.subrange(start as int, start + 4)),
{
    let v = be_u128(data, start, 4);
    proof {
        lemma_be_value_pow_bound(data@.subrange(start as int, start + 4));
        reveal_with_fuel(pow256, 5);
    }
    v as u32
}

/// The `len`-byte big-endian encoding of `x` (modulo `pow256(len)`).
pub open spec fn be_bytes_of(x: nat, len: nat) -> Seq<u8>
    decreases len,
{
    if len == 0 {
        Seq::empty()
    } else {
        be_bytes_of(x / 256, (len - 1) as nat).push((x % 256) as u8)
    }
}

/// An encoding has exactly the length asked for.
pub proof fn lemma_be_bytes_len(x: nat, len: nat)
    ensures
        be_bytes_of(x, len).len() == len,
    decreases len,
{
    if len > 0 {
        lemma_be_bytes_len(x / 256, (len - 1) as nat);
    }
}

/// The value of an encoding is the encoded value, when it fits.
pub proof fn lemma_be_value_of_bytes(x: nat, len: nat)
    requires
        x < pow256(len),
    ensures
        be_value(be_bytes_of(x, len)) == x,
    decreases len,
{
    if len > 0 {
        assert(x / 256 < pow256((len - 1) as nat) && x == (x / 256) * 256 + (x
            % 256)) by (nonlinear_arith)
            requires
                x < 256 * pow256((len - 1) as nat);
        lemma_be_value_of_bytes(x / 256, (len - 1) as nat);
        lemma_be_bytes_len(x / 256, (len - 1) as nat);
        assert(be_bytes_of(x, len).drop_last() =~= be_bytes_of(x / 256, (len - 1) as nat));
    }
}

/// Encoding the value of a byte sequence gives back that sequence.
pub proof fn lemma_be_round_trip(s: Seq<u8>)
    ensures
        be_bytes_of(be_value(s), s.len()) == s,
    decreases s.len(),
{
    if s.len() > 0 {
        let x = be_value(s);
        assert(x == be_value(s.drop_last()) * 256 + s.last());
        assert(x % 256 == s.last() && x / 256 == be_value(s.drop_last())) by (nonlinear_arith)
            requires
                x == be_value(s.drop_last()) * 256 + s.last(),
                s.last() < 256;
        lemma_be_round_trip(s.drop_last());
        assert(be_bytes_of(be_value(s), s.len()) =~= s.drop_last().push(s.last()));
        assert(s.drop_last().push(s.last()) =~= s);
    }
}

/// Appends the `count`-byte big-endian encoding of `x` to `out`.
pub fn push_be(out: &mut Vec<u8>, x: u128, count: usize)
    ensures
        final(out)@ == old(out)@ + be_bytes_of(x as nat, count as nat),
    decreases count,
{
    if count == 0 {
        proof {
            assert(out@ =~= out@ + Seq::<u8>::empty());
        }
    } else {
        push_be(out, x / 256, count - 1);
        out.push((x % 256) as u8);
        proof {
            assert(out@ =~= old(out)@ + be_bytes_of(x as nat, count as nat));
        }
    }
}

/// The value of the `n`-byte big-endian field at `s[i ..]`.
pub open spec fn be_at(s: Seq<u8>, i: int, n: int) -> int {
    be_value(s.subrange(i, i + n)) as int
}

/// The 16-bit value encoded big-endian by two bytes.
pub open spec fn be16(hi: u8, lo: u8) -> u16 {
    (hi * 256 + lo) as u16
}

/// Assembles a port (or any 16-bit field) from its two wire bytes.
pub fn read_u16_be(hi: u8, lo: u8) -> (r: u16)
    ensures
        r == be16(hi, lo),
{
    (hi as u16) * 256 + (lo as u16)
}

/// The two big-endian wire bytes of a 16-bit value, high byte first.
pub open spec fn u16_be_bytes(x: u16) -> Seq<u8> {
    seq![(x / 256) as u8, (x % 256) as u8]
}

} // verus!
