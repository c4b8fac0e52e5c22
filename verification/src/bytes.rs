//! Big-endian integer encoding, as used by every wire format of the library.
//!
//! `be_bytes(v, n)` is the `n`-byte big-endian representation of `v`
//! (taken modulo 256^n) and `be_value(s)` is the number that a big-endian
//! byte sequence denotes.
use vstd::prelude::*;
use vstd::arithmetic::div_mod::{
    lemma_fundamental_div_mod_converse, lemma_mod_breakdown,
};

verus! {

/// 256 raised to the power `n`.
pub open spec fn pow256(n: nat) -> nat
    decreases n,
{
    if n == 0 {
        1
    } else {
        256 * pow256((n - 1) as nat)
    }
}

/// The number denoted by a big-endian byte sequence.
pub open spec fn be_value(s: Seq<u8>) -> nat
    decreases s.len(),
{
    if s.len() == 0 {
        0
    } else {
        be_value(s.drop_last()) * 256 + s.last() as nat
    }
}

/// The `n`-byte big-endian representation of `v` (the low `n` bytes).
pub open spec fn be_bytes(v: nat, n: nat) -> Seq<u8>
    decreases n,
{
    if n == 0 {
        Seq::empty()
    } else {
        be_bytes(v / 256, (n - 1) as nat).push((v % 256) as u8)
    }
}

/// Two-byte big-endian encoding.
pub open spec fn be16(v: u16) -> Seq<u8> {
    be_bytes(v as nat, 2)
}

/// Four-byte big-endian encoding.
pub open spec fn be32(v: u32) -> Seq<u8> {
    be_bytes(v as nat, 4)
}

/// Eight-byte big-endian encoding.
pub open spec fn be64(v: u64) -> Seq<u8> {
    be_bytes(v as nat, 8)
}

pub proof fn lemma_pow256_positive(n: nat)
    ensures
        pow256(n) > 0,
    decreases n,
{
    if n > 0 {
        lemma_pow256_positive((n - 1) as nat);
    }
}

pub proof fn lemma_be_bytes_len(v: nat, n: nat)
    ensures
        #[trigger] be_bytes(v, n).len() == n,
    decreases n,
{
    if n > 0 {
        lemma_be_bytes_len(v / 256, (n - 1) as nat);
    }
}

/// Decoding an encoding gives the value back, modulo 256^n.
pub proof fn lemma_be_value_of_bytes(v: nat, n: nat)
    ensures
        be_value(be_bytes(v, n)) == v % pow256(n),
    decreases n,
{
    if n == 0 {
    } else {
        let m = (n - 1) as nat;
        lemma_be_value_of_bytes(v / 256, m);
        lemma_be_bytes_len(v / 256, m);
        let s = be_bytes(v, n);
        assert(s.drop_last() =~= be_bytes(v / 256, m));
        lemma_pow256_positive(m);
        lemma_mod_breakdown(v as int, 256, pow256(m) as int);
    }
}

/// Encoding a decoded sequence gives the sequence back.
pub proof fn lemma_be_bytes_of_value(s: Seq<u8>)
    ensures
        be_bytes(be_value(s), s.len()) =~= s,
    decreases s.len(),
{
    if s.len() > 0 {
        let p = s.drop_last();
        lemma_be_bytes_of_value(p);
        let v = be_value(s);
        lemma_fundamental_div_mod_converse(v as int, 256, be_value(p) as int, s.last() as int);
        assert(s =~= p.push(s.last()));
    }
}

/// A decoded value fits in as many bytes as it was read from.
pub proof fn lemma_be_value_bound(s: Seq<u8>)
    ensures
        be_value(s) < pow256(s.len()),
    decreases s.len(),
{
    if s.len() > 0 {
        lemma_be_value_bound(s.drop_last());
    }
}

/// Big-endian values are determined by their bytes: equal encodings come from
/// equal values (below 256^n).
pub proof fn lemma_be_bytes_injective(a: nat, b: nat, n: nat)
    requires
        a < pow256(n),
        b < pow256(n),
        be_bytes(a, n) == be_bytes(b, n),
    ensures
        a == b,
{
    lemma_be_value_of_bytes(a, n);
    lemma_be_value_of_bytes(b, n);
    lemma_small_mod(a, n);
    lemma_small_mod(b, n);
}

/// Values below 256^n are unchanged by reduction modulo 256^n.
pub proof fn lemma_small_mod(v: nat, n: nat)
    requires
        v < pow256(n),
    ensures
        v % pow256(n) == v,
{
    lemma_pow256_positive(n);
    lemma_fundamental_div_mod_converse(v as int, pow256(n) as int, 0, v as int);
}

pub proof fn lemma_pow256_values()
    ensures
        pow256(1) == 0x100,
        pow256(2) == 0x1_0000,
        pow256(4) == 0x1_0000_0000,
        pow256(6) == 0x1_0000_0000_0000,
        pow256(8) == 0x1_0000_0000_0000_0000,
{
    reveal_with_fuel(pow256, 9);
}

/// A new vector holding a copy of `s`.
pub fn copy_bytes(s: &[u8]) -> (r: Vec<u8>)
    ensures
        r@ == s@,
{
    let mut v: Vec<u8> = Vec::new();
    v.extend_from_slice(s);
    v
}

/// Appends the two-byte big-endian encoding of `v`.
pub fn push_u16_be(buf: &mut Vec<u8>, v: u16)
    ensures
        final(buf)@ == old(buf)@ + be16(v),
{
    let q1 = v / 256;
    buf.push((q1 % 256) as u8);
    buf.push((v % 256) as u8);
    proof {
        reveal_with_fuel(be_bytes, 3);
        assert(final(buf)@ =~= old(buf)@ + be16(v));
    }
}

/// Appends the four-byte big-endian encoding of `v`.
pub fn push_u32_be(buf: &mut Vec<u8>, v: u32)
    ensures
        final(buf)@ == old(buf)@ + be32(v),
{
    let q1 = v / 256;
    let q2 = q1 / 256;
    let q3 = q2 / 256;
    buf.push((q3 % 256) as u8);
    buf.push((q2 % 256) as u8);
    buf.push((q1 % 256) as u8);
    buf.push((v % 256) as u8);
    proof {
        reveal_with_fuel(be_bytes, 5);
        assert(final(buf)@ =~= old(buf)@ + be32(v));
    }
}

/// Appends the `n`-byte big-endian encoding of `v` (its low `n` bytes).
pub fn push_be(buf: &mut Vec<u8>, v: u64, n: usize)
    requires
        n <= 8,
    ensures
        final(buf)@ == old(buf)@ + be_bytes(v as nat, n as nat),
{
    // Emit the most significant of the n bytes first.
    let mut i: usize = n;
    proof {
        lemma_be_bytes_len(v as nat, n as nat);
    }
    while i > 0
        invariant
            i <= n <= 8,
            be_bytes(v as nat, n as nat).len() == n,
            buf@ == old(buf)@ + be_bytes(v as nat, n as nat).subrange(0, (n - i) as int),
        decreases i,
    {
        let mut q: u64 = v;
        let mut k: usize = 1;
        assert(pow256(0) == 1);
        assert(v as nat / 1 == v as nat);
        while k < i
            invariant
                1 <= k <= i,
                q as nat == v as nat / pow256((k - 1) as nat),
            decreases i - k,
        {
            proof {
                lemma_pow256_positive((k - 1) as nat);
                vstd::arithmetic::div_mod::lemma_div_denominator(
                    v as int,
                    pow256((k - 1) as nat) as int,
                    256,
                );
                assert(pow256(k as nat) == 256 * pow256((k - 1) as nat));
                vstd::arithmetic::mul::lemma_mul_is_commutative(
                    256,
                    pow256((k - 1) as nat) as int,
                );
            }
            q = q / 256;
            k = k + 1;
        }
        proof {
            lemma_be_bytes_index(v as nat, n as nat, (n - i) as nat);
            lemma_be_bytes_len(v as nat, n as nat);
        }
        buf.push((q % 256) as u8);
        proof {
            assert(be_bytes(v as nat, n as nat).subrange(0, (n - i + 1) as int)
                =~= be_bytes(v as nat, n as nat).subrange(0, (n - i) as int).push(
                (q % 256) as u8,
            ));
        }
        i = i - 1;
    }
    proof {
        lemma_be_bytes_len(v as nat, n as nat);
        assert(be_bytes(v as nat, n as nat).subrange(0, n as int) =~= be_bytes(
            v as nat,
            n as nat,
        ));
    }
}

/// Byte `j` of an `n`-byte encoding is `(v / 256^(n-1-j)) % 256`.
pub proof fn lemma_be_bytes_index(v: nat, n: nat, j: nat)
    requires
        j < n,
    ensures
        be_bytes(v, n)[j as int] == ((v / pow256((n - 1 - j) as nat)) % 256) as u8,
    decreases n,
{
    lemma_be_bytes_len(v / 256, (n - 1) as nat);
    let s = be_bytes(v, n);
    assert(s == be_bytes(v / 256, (n - 1) as nat).push((v % 256) as u8));
    if j == n - 1 {
        assert(pow256(0) == 1);
        assert(v / 1 == v);
    } else {
        lemma_be_bytes_index(v / 256, (n - 1) as nat, j);
        let e = (n - 2 - j) as nat;
        lemma_pow256_positive(e);
        vstd::arithmetic::div_mod::lemma_div_denominator(v as int, 256, pow256(e) as int);
        assert(pow256((n - 1 - j) as nat) == 256 * pow256(e));
        assert(s[j as int] == be_bytes(v / 256, (n - 1) as nat)[j as int]);
    }
}

/// Reads `n` big-endian bytes starting at `pos`.
pub fn read_be(data: &[u8], pos: usize, n: usize) -> (r: u64)
    requires
        n <= 8,
        pos + n <= data@.len(),
    ensures
        r as nat == be_value(data@.subrange(pos as int, pos + n)),
{
    let mut acc: u64 = 0;
    let mut i: usize = 0;
    while i < n
        invariant
            i <= n <= 8,
            pos + n <= data@.len(),
            data@.len() == data.len(),
            acc as nat == be_value(data@.subrange(pos as int, pos + i)),
        decreases n - i,
    {
        proof {
            lemma_be_value_bound(data@.subrange(pos as int, pos + i));
            lemma_pow256_mono(i as nat, 7);
            lemma_pow256_values();
            reveal_with_fuel(pow256, 8);
            let s = data@.subrange(pos as int, pos + i + 1);
            assert(s.drop_last() =~= data@.subrange(pos as int, pos + i));
        }
        acc = acc * 256 + data[pos + i] as u64;
        i = i + 1;
    }
    acc
}

pub proof fn lemma_pow256_mono(a: nat, b: nat)
    requires
        a <= b,
    ensures
        pow256(a) <= pow256(b),
    decreases b,
{
    if a < b {
        lemma_pow256_mono(a, (b - 1) as nat);
        lemma_pow256_positive((b - 1) as nat);
    }
}

/// Reads a two-byte big-endian value.
pub fn read_u16_be(data: &[u8], pos: usize) -> (r: u16)
    requires
        pos + 2 <= data@.len(),
    ensures
        r as nat == be_value(data@.subrange(pos as int, pos + 2)),
{
    proof {
        lemma_be_value_bound(data@.subrange(pos as int, pos + 2));
        lemma_pow256_values();
    }
    read_be(data, pos, 2) as u16
}

/// Reads a four-byte big-endian value.
pub fn read_u32_be(data: &[u8], pos: usize) -> (r: u32)
    requires
        pos + 4 <= data@.len(),
    ensures
        r as nat == be_value(data@.subrange(pos as int, pos + 4)),
{
    proof {
        lemma_be_value_bound(data@.subrange(pos as int, pos + 4));
        lemma_pow256_values();
    }
    read_be(data, pos, 4) as u32
}

/// Reads an eight-byte big-endian value.
pub fn read_u64_be(data: &[u8], pos: usize) -> (r: u64)
    requires
        pos + 8 <= data@.len(),
    ensures
        r as nat == be_value(data@.subrange(pos as int, pos + 8)),
{
    read_be(data, pos, 8)
}

/// Decoding the bytes of a u16 gives it back.
pub proof fn lemma_be16_roundtrip(v: u16)
    ensures
        be16(v).len() == 2,
        be_value(be16(v)) == v as nat,
{
    lemma_be_bytes_len(v as nat, 2);
    lemma_be_value_of_bytes(v as nat, 2);
    lemma_pow256_values();
    lemma_small_mod(v as nat, 2);
}

/// Decoding the bytes of a u32 gives it back.
pub proof fn lemma_be32_roundtrip(v: u32)
    ensures
        be32(v).len() == 4,
        be_value(be32(v)) == v as nat,
{
    lemma_be_bytes_len(v as nat, 4);
    lemma_be_value_of_bytes(v as nat, 4);
    lemma_pow256_values();
    lemma_small_mod(v as nat, 4);
}

/// Decoding the bytes of a u64 gives it back.
pub proof fn lemma_be64_roundtrip(v: u64)
    ensures
        be64(v).len() == 8,
        be_value(be64(v)) == v as nat,
{
    lemma_be_bytes_len(v as nat, 8);
    lemma_be_value_of_bytes(v as nat, 8);
    lemma_pow256_values();
    lemma_small_mod(v as nat, 8);
}


/// Fixed-size copies of byte vectors, for the wire formats that are arrays.
/// Copies a 8-byte vector into an array.
pub fn to_array8(v: &Vec<u8>) -> (r: [u8; 8])
    requires
        v@.len() == 8,
    ensures
        r@ == v@,
{
    let r = [v[0], v[1], v[2], v[3], v[4], v[5], v[6], v[7]];
    assert(r@ =~= v@);
    r
}

/// Copies a 10-byte vector into an array.
pub fn to_array10(v: &Vec<u8>) -> (r: [u8; 10])
    requires
        v@.len() == 10,
    ensures
        r@ == v@,
{
    let r = [v[0], v[1], v[2], v[3], v[4], v[5], v[6], v[7], v[8], v[9]];
    assert(r@ =~= v@);
    r
}

/// Copies a 12-byte vector into an array.
pub fn to_array12(v: &Vec<u8>) -> (r: [u8; 12])
    requires
        v@.len() == 12,
    ensures
        r@ == v@,
{
    let r = [v[0], v[1], v[2], v[3], v[4], v[5], v[6], v[7], v[8], v[9], v[10], v[11]];
    assert(r@ =~= v@);
    r
}

/// Copies a 24-byte vector into an array.
pub fn to_array24(v: &Vec<u8>) -> (r: [u8; 24])
    requires
        v@.len() == 24,
    ensures
        r@ == v@,
{
    let r = [v[0], v[1], v[2], v[3], v[4], v[5], v[6], v[7], v[8], v[9], v[10], v[11], v[12], v[13], v[14], v[15], v[16], v[17], v[18], v[19], v[20], v[21], v[22], v[23]];
    assert(r@ =~= v@);
    r
}

/// Copies a 34-byte vector into an array.
pub fn to_array34(v: &Vec<u8>) -> (r: [u8; 34])
    requires
        v@.len() == 34,
    ensures
        r@ == v@,
{
    let r = [v[0], v[1], v[2], v[3], v[4], v[5], v[6], v[7], v[8], v[9], v[10], v[11], v[12], v[13], v[14], v[15], v[16], v[17], v[18], v[19], v[20], v[21], v[22], v[23], v[24], v[25], v[26], v[27], v[28], v[29], v[30], v[31], v[32], v[33]];
    assert(r@ =~= v@);
    r
}

/// Copies a 48-byte vector into an array.
pub fn to_array48(v: &Vec<u8>) -> (r: [u8; 48])
    requires
        v@.len() == 48,
    ensures
        r@ == v@,
{
    let r = [v[0], v[1], v[2], v[3], v[4], v[5], v[6], v[7], v[8], v[9], v[10], v[11], v[12], v[13], v[14], v[15], v[16], v[17], v[18], v[19], v[20], v[21], v[22], v[23], v[24], v[25], v[26], v[27], v[28], v[29], v[30], v[31], v[32], v[33], v[34], v[35], v[36], v[37], v[38], v[39], v[40], v[41], v[42], v[43], v[44], v[45], v[46], v[47]];
    assert(r@ =~= v@);
    r
}

/// A 16-byte slice as an array.
pub fn copy_array16(s: &[u8]) -> (r: [u8; 16])
    requires
        s@.len() == 16,
    ensures
        r@ == s@,
{
    let r = [s[0], s[1], s[2], s[3], s[4], s[5], s[6], s[7], s[8], s[9], s[10], s[11], s[12], s[13], s[14], s[15]];
    assert(r@ =~= s@);
    r
}

/// The first 32 bytes of a 32-byte slice, as an array.
pub fn copy_array32(s: &[u8]) -> (r: [u8; 32])
    requires
        s@.len() == 32,
    ensures
        r@ == s@,
{
    let mut arr = [0u8; 32];
    let mut i: usize = 0;
    while i < 32
        invariant
            s@.len() == 32,
            i <= 32,
            forall|j: int| 0 <= j < i ==> arr@[j] == s@[j],
        decreases 32 - i,
    {
        arr[i] = s[i];
        i = i + 1;
    }
    assert(arr@ =~= s@);
    arr
}

} // verus!
