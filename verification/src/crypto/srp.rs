//! SRP-6a (RFC 5054, 3072-bit group, SHA-512) as Apple's HomeKit/AirPlay 2
//! pairing uses it. Numbers are held as big-endian bytes; the arithmetic is
//! done by `num-bigint` and the hashing by `sha2`.
use vstd::prelude::*;
use vstd::arithmetic::div_mod::{
    lemma_fundamental_div_mod_converse, lemma_mod_bound, lemma_mul_mod_noop_general,
};
use vstd::arithmetic::power::{lemma_pow_adds, lemma_pow_mod_noop, lemma_pow_multiplies, pow};
use crate::bytes::be_value;
use crate::crypto::CryptoError;
use num_bigint::RandomBits;
use rand::Rng;
use sha2::Digest;

verus! {

/// The SHA-512 digest of the data.
pub uninterp spec fn sha512(data: Seq<u8>) -> Seq<u8>;

/// `sha2::Sha512::digest`: the 64-byte SHA-512 digest, named.
#[verifier::external_body]
fn sha512_digest(data: &[u8]) -> (r: [u8; 64])
    ensures
        r@ == sha512(data@),
{
    let d = sha2::Sha512::digest(data);
    <[u8; 64]>::try_from(d.as_slice()).unwrap()
}

/// The minimal big-endian bytes of a number (`BigUint::to_bytes_be`): one
/// zero byte for zero, else no leading zero byte.
pub open spec fn min_be(v: nat) -> Seq<u8>
    decreases v,
{
    if v < 256 {
        seq![v as u8]
    } else {
        min_be(v / 256).push((v % 256) as u8)
    }
}

/// `BigUint::from_bytes_be(a).to_bytes_be()`: the minimal bytes of the
/// number that `a` denotes.
#[verifier::external_body]
fn big_normalize(a: &[u8]) -> (r: Vec<u8>)
    ensures
        r@ == min_be(be_value(a@)),
{
    num_bigint::BigUint::from_bytes_be(a).to_bytes_be()
}

/// `BigUint::modpow`: `base^exp mod modulus` (which panics for a zero
/// modulus, excluded here).
#[verifier::external_body]
fn big_modpow(base: &[u8], exp: &[u8], modulus: &[u8]) -> (r: Vec<u8>)
    requires
        be_value(modulus@) > 0,
    ensures
        r@ == min_be((pow(be_value(base@) as int, be_value(exp@)) % (be_value(modulus@) as int)) as nat),
{
    let b = num_bigint::BigUint::from_bytes_be(base);
    let e = num_bigint::BigUint::from_bytes_be(exp);
    let m = num_bigint::BigUint::from_bytes_be(modulus);
    b.modpow(&e, &m).to_bytes_be()
}

/// `&BigUint * &BigUint`: the product.
#[verifier::external_body]
fn big_mul(a: &[u8], b: &[u8]) -> (r: Vec<u8>)
    ensures
        r@ == min_be(be_value(a@) * be_value(b@)),
{
    let x = num_bigint::BigUint::from_bytes_be(a);
    let y = num_bigint::BigUint::from_bytes_be(b);
    (&x * &y).to_bytes_be()
}

/// `&BigUint + &BigUint`: the sum.
#[verifier::external_body]
fn big_add(a: &[u8], b: &[u8]) -> (r: Vec<u8>)
    ensures
        r@ == min_be(be_value(a@) + be_value(b@)),
{
    let x = num_bigint::BigUint::from_bytes_be(a);
    let y = num_bigint::BigUint::from_bytes_be(b);
    (&x + &y).to_bytes_be()
}

/// `&BigUint - &BigUint`: the difference (which panics below zero,
/// excluded here).
#[verifier::external_body]
fn big_sub(a: &[u8], b: &[u8]) -> (r: Vec<u8>)
    requires
        be_value(a@) >= be_value(b@),
    ensures
        r@ == min_be((be_value(a@) - be_value(b@)) as nat),
{
    let x = num_bigint::BigUint::from_bytes_be(a);
    let y = num_bigint::BigUint::from_bytes_be(b);
    (&x - &y).to_bytes_be()
}

/// `&BigUint % &BigUint`: the remainder (which panics for a zero divisor,
/// excluded here).
#[verifier::external_body]
fn big_rem(a: &[u8], m: &[u8]) -> (r: Vec<u8>)
    requires
        be_value(m@) > 0,
    ensures
        r@ == min_be(be_value(a@) % be_value(m@)),
{
    let x = num_bigint::BigUint::from_bytes_be(a);
    let y = num_bigint::BigUint::from_bytes_be(m);
    (&x % &y).to_bytes_be()
}

/// `BigUint >= BigUint`: the order of the numbers.
#[verifier::external_body]
fn big_ge(a: &[u8], b: &[u8]) -> (r: bool)
    ensures
        r == (be_value(a@) >= be_value(b@)),
{
    num_bigint::BigUint::from_bytes_be(a) >= num_bigint::BigUint::from_bytes_be(b)
}

/// A random number of `bits` bits (`Rng::sample(RandomBits::new(bits))`
/// with the thread-local generator), as minimal bytes; only the bound is
/// promised.
#[verifier::external_body]
fn random_bits(bits: u64) -> (r: Vec<u8>)
    ensures
        be_value(r@) < pow(2, bits as nat),
        r@ == min_be(be_value(r@)),
{
    let mut rng = rand::thread_rng();
    let a: num_bigint::BigUint = rng.sample(RandomBits::new(bits));
    a.to_bytes_be()
}

/// The width in bits of a secret exponent.
pub const SECRET_BITS: u64 = 256;

/// The value of a hexadecimal digit character.
pub open spec fn hex_digit(c: char) -> Option<nat> {
    if '0' <= c && c <= '9' {
        Some((c as u32 - '0' as u32) as nat)
    } else if 'a' <= c && c <= 'f' {
        Some((c as u32 - 'a' as u32 + 10) as nat)
    } else if 'A' <= c && c <= 'F' {
        Some((c as u32 - 'A' as u32 + 10) as nat)
    } else {
        None
    }
}

/// The value of hexadecimal digits, `_` separators skipped; `None` for
/// any other character.
pub open spec fn hex_digits_value(s: Seq<char>) -> Option<nat>
    decreases s.len(),
{
    if s.len() == 0 {
        Some(0)
    } else {
        match hex_digits_value(s.drop_last()) {
            None => None,
            Some(v) => if s.last() == '_' {
                Some(v)
            } else {
                match hex_digit(s.last()) {
                    Some(d) => Some(v * 16 + d),
                    None => None,
                }
            },
        }
    }
}

/// What `BigUint::parse_bytes(s, 16)` reads: one leading `+` is dropped
/// (unless another follows), then one or more hex digits with `_`
/// separators, not starting with `_`.
pub open spec fn radix16_value(s: Seq<char>) -> Option<nat> {
    let t = if s.len() > 0 && s[0] == '+' && !(s.len() > 1 && s[1] == '+') {
        s.subrange(1, s.len() as int)
    } else {
        s
    };
    if t.len() == 0 || t[0] == '_' {
        None
    } else {
        hex_digits_value(t)
    }
}

/// `BigUint::parse_bytes(s.as_bytes(), 16)`, as its source reads the text.
#[verifier::external_body]
fn big_parse_hex(s: &str) -> (r: Option<Vec<u8>>)
    ensures
        r is Some <==> radix16_value(s@) is Some,
        r matches Some(b) ==> b@ == min_be(radix16_value(s@).unwrap()),
{
    match num_bigint::BigUint::parse_bytes(s.as_bytes(), 16) {
        Some(n) => Some(n.to_bytes_be()),
        None => None,
    }
}

proof fn lemma_leading_digit_positive(s: Seq<char>)
    requires
        s.len() > 0,
        hex_digit(s[0]) matches Some(d) && d > 0,
    ensures
        hex_digits_value(s) matches Some(v) ==> v > 0,
    decreases s.len(),
{
    if s.len() > 1 {
        lemma_leading_digit_positive(s.drop_last());
    }
}

proof fn lemma_min_be_len(v: nat)
    ensures
        min_be(v).len() >= 1,
        be_value(min_be(v)) == v,
    decreases v,
{
    if v >= 256 {
        lemma_min_be_len(v / 256);
        assert(min_be(v).drop_last() =~= min_be(v / 256));
        assert(min_be(v).last() == (v % 256) as u8);
        assert(be_value(min_be(v)) == be_value(min_be(v).drop_last()) * 256 + min_be(v).last() as nat);
        assert(v == (v / 256) * 256 + v % 256);
    } else {
        assert(be_value(min_be(v)) == be_value(min_be(v).drop_last()) * 256 + min_be(v).last() as nat);
        assert(min_be(v).drop_last() =~= Seq::<u8>::empty());
        assert(min_be(v).last() == v as u8);
    }
}

/// Whether minimal bytes stand for zero.
fn is_zero(a: &Vec<u8>, Ghost(v): Ghost<nat>) -> (r: bool)
    requires
        a@ == min_be(v),
    ensures
        r == (v == 0),
{
    proof {
        lemma_min_be_len(v);
        if v >= 256 {
            lemma_min_be_len(v / 256);
            assert(min_be(v).len() >= 2);
        }
    }
    a.len() == 1 && a[0] == 0
}

/// The value left-padded with zero bytes to 384 bytes (values already as
/// long or longer are left as they are).
pub open spec fn pad384(s: Seq<u8>) -> Seq<u8> {
    if s.len() < 384 {
        Seq::new((384 - s.len()) as nat, |i: int| 0u8) + s
    } else {
        s
    }
}

fn pad_to_384(s: Vec<u8>) -> (r: Vec<u8>)
    ensures
        r@ == pad384(s@),
{
    if s.len() < 384 {
        let mut out: Vec<u8> = Vec::new();
        let k = 384 - s.len();
        let mut i: usize = 0;
        while i < k
            invariant
                i <= k,
                out@ == Seq::new(i as nat, |j: int| 0u8),
            decreases k - i,
        {
            out.push(0);
            assert(out@ =~= Seq::new((i + 1) as nat, |j: int| 0u8));
            i = i + 1;
        }
        out.extend_from_slice(s.as_slice());
        assert(out@ =~= pad384(s@));
        out
    } else {
        s
    }
}

/// The minimal bytes of a `u32`.
fn u32_min_be(g: u32) -> (r: Vec<u8>)
    ensures
        r@ == min_be(g as nat),
{
    let mut out: Vec<u8> = Vec::new();
    if g >= 0x100_0000 {
        out.push((g / 0x100_0000) as u8);
    }
    if g >= 0x1_0000 {
        out.push(((g / 0x1_0000) % 256) as u8);
    }
    if g >= 0x100 {
        out.push(((g / 0x100) % 256) as u8);
    }
    out.push((g % 256) as u8);
    proof {
        let v = g as nat;
        if v >= 0x100_0000 {
            assert(min_be(v / 0x100_0000) =~= seq![(v / 0x100_0000) as u8]);
            assert(min_be(v / 0x1_0000) =~= min_be(v / 0x100_0000).push(((v / 0x1_0000) % 256) as u8));
            assert(min_be(v / 0x100) =~= min_be(v / 0x1_0000).push(((v / 0x100) % 256) as u8));
        } else if v >= 0x1_0000 {
            assert(min_be(v / 0x1_0000) =~= seq![(v / 0x1_0000) as u8]);
            assert(min_be(v / 0x100) =~= min_be(v / 0x1_0000).push(((v / 0x100) % 256) as u8));
        } else if v >= 0x100 {
            assert(min_be(v / 0x100) =~= seq![(v / 0x100) as u8]);
        }
    }
    assert(out@ =~= min_be(g as nat));
    out
}

/// The SRP parameters: modulus N, generator g and multiplier k, as minimal
/// big-endian bytes.
#[derive(Debug, Clone)]
pub struct SrpParams {
    /// The modulus.
    pub n: Vec<u8>,
    /// The generator.
    pub g: Vec<u8>,
    /// The multiplier `k = H(N, pad(g))`.
    pub k: Vec<u8>,
}

/// An SRP group: the modulus as hex text and the generator.
#[derive(Debug, Clone, Copy)]
pub struct SrpGroup {
    /// The modulus in hexadecimal.
    pub n_hex: &'static str,
    /// The generator.
    pub g: u32,
}

/// The multiplier of a group: `k = H(N, pad(g))` as a number.
pub open spec fn srp_k(n: nat, g: nat) -> nat {
    be_value(sha512(min_be(n) + pad384(min_be(g))))
}

/// Whether a group's modulus text parses to a nonzero number (or not at
/// all); a zero modulus makes `modpow` panic.
pub open spec fn group_ok(group: SrpGroup) -> bool {
    radix16_value(group.n_hex@) matches Some(n) ==> n > 0
}

/// The modulus of the RFC 5054 3072-bit group, in hexadecimal.
pub open spec fn rfc5054_3072_hex() -> Seq<char> {
    "FFFFFFFFFFFFFFFFC90FDAA22168C234C4C6628B80DC1CD129024E088A67CC74020BBEA63B139B22514A08798E3404DDEF9519B3CD3A431B302B0A6DF25F14374FE1356D6D51C245E485B576625E7EC6F44C42E9A637ED6B0BFF5CB6F406B7EDEE386BFB5A899FA5AE9F24117C4B1FE649286651ECE45B3DC2007CB8A163BF0598DA48361C55D39A69163FA8FD24CF5F83655D23DCA3AD961C62F356208552BB9ED529077096966D670C354E4ABC9804F1746C08CA18217C32905E462E36CE3BE39E772C180E86039B2783A2EC07A28FB5C55DF06F4C52C9DE2BCBF6955817183995497CEA956AE515D2261898FA051015728E5A8AAAC42DAD33170D04507A33A85521ABDF1CBA64ECFB850458DBEF0A8AEA71575D060C7DB3970F85A6E1E4C7ABF5AE8CDB0933D71E8C94E04A25619DCEE3D2261AD2EE6BF12FFA06D98A0864D87602733EC86A64521F2B18177B200CBBE117577A615D6C770988C0BAD946E208E24FA074E5AB3143DB5BFCE0FD108E4B82D120A93AD2CAFFFFFFFFFFFFFFFF"@
}

impl SrpParams {
    /// The RFC 5054 3072-bit group, generator 5.
    pub fn rfc5054_3072() -> (r: SrpGroup)
        ensures
            r.g == 5,
            r.n_hex@ == rfc5054_3072_hex(),
            group_ok(r),
    {
        proof {
            reveal_strlit(
                "FFFFFFFFFFFFFFFFC90FDAA22168C234C4C6628B80DC1CD129024E088A67CC74020BBEA63B139B22514A08798E3404DDEF9519B3CD3A431B302B0A6DF25F14374FE1356D6D51C245E485B576625E7EC6F44C42E9A637ED6B0BFF5CB6F406B7EDEE386BFB5A899FA5AE9F24117C4B1FE649286651ECE45B3DC2007CB8A163BF0598DA48361C55D39A69163FA8FD24CF5F83655D23DCA3AD961C62F356208552BB9ED529077096966D670C354E4ABC9804F1746C08CA18217C32905E462E36CE3BE39E772C180E86039B2783A2EC07A28FB5C55DF06F4C52C9DE2BCBF6955817183995497CEA956AE515D2261898FA051015728E5A8AAAC42DAD33170D04507A33A85521ABDF1CBA64ECFB850458DBEF0A8AEA71575D060C7DB3970F85A6E1E4C7ABF5AE8CDB0933D71E8C94E04A25619DCEE3D2261AD2EE6BF12FFA06D98A0864D87602733EC86A64521F2B18177B200CBBE117577A615D6C770988C0BAD946E208E24FA074E5AB3143DB5BFCE0FD108E4B82D120A93AD2CAFFFFFFFFFFFFFFFF",
            );
        }
        let r = SrpGroup {
            n_hex: "FFFFFFFFFFFFFFFFC90FDAA22168C234C4C6628B80DC1CD129024E088A67CC74020BBEA63B139B22514A08798E3404DDEF9519B3CD3A431B302B0A6DF25F14374FE1356D6D51C245E485B576625E7EC6F44C42E9A637ED6B0BFF5CB6F406B7EDEE386BFB5A899FA5AE9F24117C4B1FE649286651ECE45B3DC2007CB8A163BF0598DA48361C55D39A69163FA8FD24CF5F83655D23DCA3AD961C62F356208552BB9ED529077096966D670C354E4ABC9804F1746C08CA18217C32905E462E36CE3BE39E772C180E86039B2783A2EC07A28FB5C55DF06F4C52C9DE2BCBF6955817183995497CEA956AE515D2261898FA051015728E5A8AAAC42DAD33170D04507A33A85521ABDF1CBA64ECFB850458DBEF0A8AEA71575D060C7DB3970F85A6E1E4C7ABF5AE8CDB0933D71E8C94E04A25619DCEE3D2261AD2EE6BF12FFA06D98A0864D87602733EC86A64521F2B18177B200CBBE117577A615D6C770988C0BAD946E208E24FA074E5AB3143DB5BFCE0FD108E4B82D120A93AD2CAFFFFFFFFFFFFFFFF",
            g: 5,
        };
        proof {
            let s = r.n_hex@;
            assert(s[0] == 'F');
            assert(s.len() > 1 && s[1] == 'F');
            lemma_leading_digit_positive(s);
        }
        r
    }
}

impl SrpGroup {
    /// Parse the group into its parameters: N from the hex text, g, and
    /// `k = H(N, pad(g))`.
    pub fn to_params(&self) -> (r: Result<SrpParams, CryptoError>)
        ensures
            r is Ok <==> radix16_value(self.n_hex@) is Some,
            r matches Ok(p) ==> {
                let n = radix16_value(self.n_hex@).unwrap();
                &&& p.n@ == min_be(n)
                &&& p.g@ == min_be(self.g as nat)
                &&& p.k@ == min_be(srp_k(n, self.g as nat))
            },
            r matches Err(e) ==> e matches CryptoError::SrpError(m) && m@ == "Failed to parse N"@,
    {
        let n = match big_parse_hex(self.n_hex) {
            Some(n) => n,
            None => return Err(CryptoError::SrpError(String::from_str("Failed to parse N"))),
        };
        let g = u32_min_be(self.g);
        let mut data: Vec<u8> = Vec::new();
        data.extend_from_slice(n.as_slice());
        let g_padded = pad_to_384(crate::bytes::copy_bytes(g.as_slice()));
        data.extend_from_slice(g_padded.as_slice());
        let h = sha512_digest(data.as_slice());
        let k = big_normalize(h.as_slice());
        proof {
            assert(data@ =~= min_be(radix16_value(self.n_hex@).unwrap()) + pad384(min_be(self.g as nat)));
        }
        Ok(SrpParams { n, g, k })
    }
}

/// `base^exp mod m`.
pub open spec fn mod_pow(base: nat, exp: nat, m: nat) -> nat {
    (pow(base as int, exp) % (m as int)) as nat
}

/// The private exponent hash `x = H(salt, H(username ":" password))`.
pub open spec fn srp_x(username: Seq<u8>, password: Seq<u8>, salt: Seq<u8>) -> nat {
    be_value(sha512(salt + sha512(username + seq![0x3au8] + password)))
}

/// The scrambler `u = H(pad(A), pad(B))`, with A already padded.
pub open spec fn srp_u(a_padded: Seq<u8>, b_padded: Seq<u8>) -> nat {
    be_value(sha512(a_padded + b_padded))
}

/// The client's base `(B - k g^x) mod N`, computed without negative
/// numbers as the client does.
pub open spec fn client_base(n: nat, g: nat, k: nat, b: nat, x: nat) -> nat {
    let kgx = (k * mod_pow(g, x, n)) % n;
    if b >= kgx {
        ((b - kgx) as nat) % n
    } else {
        ((n - ((kgx - b) as nat) % n) as nat) % n
    }
}

/// The session key `K = H(S)`.
pub open spec fn session_key(s: nat) -> Seq<u8> {
    sha512(min_be(s))
}

/// The client proof `M1 = H(H(N) xor H(g), H(username), salt, A, B, K)`.
pub open spec fn srp_m1(
    n: nat,
    g: nat,
    username: Seq<u8>,
    salt: Seq<u8>,
    a: nat,
    b: nat,
    k_session: Seq<u8>,
) -> Seq<u8> {
    sha512(
        crate::crypto::xor_seq(sha512(min_be(n)), sha512(min_be(g))) + sha512(username) + salt
            + min_be(a) + min_be(b) + k_session,
    )
}

/// The server proof `M2 = H(A, M1, K)`.
pub open spec fn srp_m2(a: nat, m1: Seq<u8>, k_session: Seq<u8>) -> Seq<u8> {
    sha512(min_be(a) + m1 + k_session)
}

fn bytes_eq(a: &[u8], b: &[u8]) -> (r: bool)
    ensures
        r == (a@ == b@),
{
    if a.len() != b.len() {
        return false;
    }
    let mut i: usize = 0;
    while i < a.len()
        invariant
            a@.len() == b@.len(),
            i <= a@.len(),
            forall|j: int| 0 <= j < i ==> a@[j] == b@[j],
        decreases a@.len() - i,
    {
        if a[i] != b[i] {
            return false;
        }
        i = i + 1;
    }
    assert(a@ =~= b@);
    true
}

fn xor64(a: &[u8; 64], b: &[u8; 64]) -> (r: Vec<u8>)
    ensures
        r@ == crate::crypto::xor_seq(a@, b@),
{
    let mut out: Vec<u8> = Vec::new();
    let mut i: usize = 0;
    while i < 64
        invariant
            i <= 64,
            out@ == Seq::new(i as nat, |j: int| a@[j] ^ b@[j]),
        decreases 64 - i,
    {
        out.push(a[i] ^ b[i]);
        assert(out@ =~= Seq::new((i + 1) as nat, |j: int| a@[j] ^ b@[j]));
        i = i + 1;
    }
    out
}

fn x_hash(username: &[u8], password: &[u8], salt: &[u8]) -> (r: [u8; 64])
    ensures
        be_value(r@) == srp_x(username@, password@, salt@),
{
    let colon: [u8; 1] = [0x3a];
    let mut inner_data: Vec<u8> = Vec::new();
    inner_data.extend_from_slice(username);
    inner_data.extend_from_slice(colon.as_slice());
    inner_data.extend_from_slice(password);
    assert(inner_data@ =~= username@ + seq![0x3au8] + password@);
    let inner = sha512_digest(inner_data.as_slice());
    let mut outer_data: Vec<u8> = Vec::new();
    outer_data.extend_from_slice(salt);
    outer_data.extend_from_slice(inner.as_slice());
    assert(outer_data@ =~= salt@ + inner@);
    sha512_digest(outer_data.as_slice())
}

fn m1_hash(
    params: &SrpParams,
    username: &[u8],
    salt: &[u8],
    a_min: &[u8],
    b_min: &[u8],
    k_session: &[u8],
) -> (r: Vec<u8>)
    requires
        params.n@ == min_be(be_value(params.n@)),
        params.g@ == min_be(be_value(params.g@)),
        a_min@ == min_be(be_value(a_min@)),
        b_min@ == min_be(be_value(b_min@)),
    ensures
        r@ == srp_m1(
            be_value(params.n@),
            be_value(params.g@),
            username@,
            salt@,
            be_value(a_min@),
            be_value(b_min@),
            k_session@,
        ),
        r@.len() == 64,
{
    let hn = sha512_digest(params.n.as_slice());
    let hg = sha512_digest(params.g.as_slice());
    let x = xor64(&hn, &hg);
    let hu = sha512_digest(username);
    let mut data: Vec<u8> = Vec::new();
    data.extend_from_slice(x.as_slice());
    data.extend_from_slice(hu.as_slice());
    data.extend_from_slice(salt);
    data.extend_from_slice(a_min);
    data.extend_from_slice(b_min);
    data.extend_from_slice(k_session);
    assert(data@ =~= crate::crypto::xor_seq(sha512(params.n@), sha512(params.g@)) + sha512(
        username@,
    ) + salt@ + a_min@ + b_min@ + k_session@);
    let h = sha512_digest(data.as_slice());
    crate::bytes::copy_bytes(h.as_slice())
}

/// The session key established by SRP.
pub struct SessionKey {
    key: Vec<u8>,
}

impl View for SessionKey {
    type V = Seq<u8>;

    closed spec fn view(&self) -> Seq<u8> {
        self.key@
    }
}

impl SessionKey {
    /// The key bytes.
    pub fn as_bytes(&self) -> (r: &[u8])
        ensures
            r@ == self@,
    {
        self.key.as_slice()
    }
}

/// The client's state after processing the server's challenge.
pub struct SrpVerifier {
    a_pub: Vec<u8>,
    m1: Vec<u8>,
    k_session: Vec<u8>,
}

impl SrpVerifier {
    /// A is held as its minimal bytes.
    #[verifier::type_invariant]
    spec fn a_pub_minimal(&self) -> bool {
        self.a_pub@ == min_be(be_value(self.a_pub@))
    }

    /// Our public value A.
    pub closed spec fn a_pub(&self) -> nat {
        be_value(self.a_pub@)
    }

    /// Our proof M1.
    pub closed spec fn m1(&self) -> Seq<u8> {
        self.m1@
    }

    /// The session key K.
    pub closed spec fn key(&self) -> Seq<u8> {
        self.k_session@
    }

    /// The client proof M1.
    pub fn client_proof(&self) -> (r: &[u8])
        ensures
            r@ == self.m1(),
    {
        self.m1.as_slice()
    }

    /// Check the server's proof M2 = H(A, M1, K); the session key is given
    /// out only when it matches.
    pub fn verify_server(&self, server_proof: &[u8]) -> (r: Result<SessionKey, CryptoError>)
        ensures
            r is Ok <==> server_proof@ == srp_m2(self.a_pub(), self.m1(), self.key()),
            r matches Ok(k) ==> k@ == self.key(),
            r matches Err(e) ==> e matches CryptoError::SrpError(m) && m@
                == "Server proof verification failed"@,
    {
        proof {
            use_type_invariant(self);
        }
        let mut data: Vec<u8> = Vec::new();
        data.extend_from_slice(self.a_pub.as_slice());
        data.extend_from_slice(self.m1.as_slice());
        data.extend_from_slice(self.k_session.as_slice());
        assert(data@ =~= min_be(self.a_pub()) + self.m1() + self.key());
        let expected = sha512_digest(data.as_slice());
        if !bytes_eq(expected.as_slice(), server_proof) {
            return Err(CryptoError::SrpError(String::from_str("Server proof verification failed")));
        }
        Ok(SessionKey { key: crate::bytes::copy_bytes(self.k_session.as_slice()) })
    }
}

/// An SRP-6a client: our secret `a` and public value `A = g^a mod N`
/// (padded to 384 bytes).
pub struct SrpClient {
    params: SrpParams,
    a: Vec<u8>,
    public_key: Vec<u8>,
}

/// The parameters hold N, g and k as minimal bytes, N nonzero.
pub open spec fn params_ok(p: SrpParams) -> bool {
    &&& be_value(p.n@) > 0
    &&& p.n@ == min_be(be_value(p.n@))
    &&& p.g@ == min_be(be_value(p.g@))
}

impl SrpClient {
    /// N, g and k are well formed.
    #[verifier::type_invariant]
    spec fn params_well_formed(&self) -> bool {
        params_ok(self.params)
    }

    /// The modulus N.
    pub closed spec fn n(&self) -> nat {
        be_value(self.params.n@)
    }

    /// The generator g.
    pub closed spec fn g(&self) -> nat {
        be_value(self.params.g@)
    }

    /// The multiplier k.
    pub closed spec fn k(&self) -> nat {
        be_value(self.params.k@)
    }

    /// Our secret exponent a.
    pub closed spec fn a(&self) -> nat {
        be_value(self.a@)
    }

    /// Our public value as sent (A padded to 384 bytes).
    pub closed spec fn public(&self) -> Seq<u8> {
        self.public_key@
    }

    /// Create a client with the RFC 5054 3072-bit group.
    pub fn new() -> (r: Result<Self, CryptoError>)
        ensures
            r is Ok <==> radix16_value(rfc5054_3072_hex()) is Some,
            r matches Ok(c) ==> {
                &&& c.n() == radix16_value(rfc5054_3072_hex()).unwrap()
                &&& c.g() == 5
                &&& c.k() == srp_k(c.n(), c.g())
                &&& c.a() < c.n()
                &&& c.public() == pad384(min_be(mod_pow(c.g(), c.a(), c.n())))
            },
            r matches Err(e) ==> e matches CryptoError::SrpError(m) && m@ == "Failed to parse N"@,
    {
        let group = SrpParams::rfc5054_3072();
        Self::with_params(&group)
    }

    /// Create a client for a group: `a` is a random number below 2^256
    /// taken modulo N, and `A = g^a mod N`.
    pub fn with_params(group: &SrpGroup) -> (r: Result<Self, CryptoError>)
        requires
            group_ok(*group),
        ensures
            r is Ok <==> radix16_value(group.n_hex@) is Some,
            r matches Ok(c) ==> {
                &&& c.n() == radix16_value(group.n_hex@).unwrap()
                &&& c.g() == group.g
                &&& c.k() == srp_k(c.n(), c.g())
                &&& c.a() < c.n()
                &&& c.public() == pad384(min_be(mod_pow(c.g(), c.a(), c.n())))
            },
            r matches Err(e) ==> e matches CryptoError::SrpError(m) && m@ == "Failed to parse N"@,
    {
        let params = match group.to_params() {
            Ok(p) => p,
            Err(e) => return Err(e),
        };
        proof {
            lemma_min_be_len(radix16_value(group.n_hex@).unwrap());
            lemma_min_be_len(group.g as nat);
            lemma_min_be_len(srp_k(radix16_value(group.n_hex@).unwrap(), group.g as nat));
        }
        let r0 = random_bits(SECRET_BITS);
        let a = big_rem(r0.as_slice(), params.n.as_slice());
        let a_pub = big_modpow(params.g.as_slice(), a.as_slice(), params.n.as_slice());
        let public_key = pad_to_384(a_pub);
        proof {
            lemma_min_be_len(be_value(r0@) % be_value(params.n@));
        }
        Ok(Self { params, a, public_key })
    }

    /// Our public value A, padded to 384 bytes.
    pub fn public_key(&self) -> (r: &[u8])
        ensures
            r@ == self.public(),
    {
        self.public_key.as_slice()
    }

    /// Process the server's challenge (salt and public value B): fails when
    /// `B mod N` is zero; otherwise computes `x`, `u`, the premaster secret
    /// `S = (B - k g^x)^(a + u x) mod N`, the session key `K = H(S)` and the
    /// proof M1.
    pub fn process_challenge(
        &self,
        username: &[u8],
        password: &[u8],
        salt: &[u8],
        server_public: &[u8],
    ) -> (r: Result<SrpVerifier, CryptoError>)
        requires
            be_value(server_public@) % self.n() == 0 || min_be(be_value(server_public@)).len()
                <= 384,
        ensures
            r is Err <==> be_value(server_public@) % self.n() == 0,
            r matches Err(e) ==> e matches CryptoError::SrpError(m) && m@
                == "Invalid server public key"@,
            r matches Ok(v) ==> {
                let b = be_value(server_public@);
                let x = srp_x(username@, password@, salt@);
                let u = srp_u(self.public(), pad384(min_be(b)));
                let s = mod_pow(
                    client_base(self.n(), self.g(), self.k(), b, x),
                    self.a() + u * x,
                    self.n(),
                );
                &&& v.a_pub() == be_value(self.public())
                &&& v.m1().len() == 64
                &&& v.key() == session_key(s)
                &&& v.m1() == srp_m1(
                    self.n(),
                    self.g(),
                    username@,
                    salt@,
                    be_value(self.public()),
                    b,
                    session_key(s),
                )
            },
    {
        proof {
            use_type_invariant(self);
        }
        let n = self.params.n.as_slice();
        let b_pub = big_normalize(server_public);
        let b_mod = big_rem(b_pub.as_slice(), n);
        if is_zero(&b_mod, Ghost(be_value(b_pub@) % be_value(n@))) {
            proof {
                lemma_min_be_len(be_value(server_public@));
            }
            return Err(CryptoError::SrpError(String::from_str("Invalid server public key")));
        }
        proof {
            lemma_min_be_len(be_value(server_public@));
        }
        let a_pub = big_normalize(self.public_key.as_slice());
        let b_padded = pad_to_384(crate::bytes::copy_bytes(b_pub.as_slice()));
        let mut u_data: Vec<u8> = Vec::new();
        u_data.extend_from_slice(self.public_key.as_slice());
        u_data.extend_from_slice(b_padded.as_slice());
        assert(u_data@ =~= self.public_key@ + b_padded@);
        let u = sha512_digest(u_data.as_slice());
        let x = x_hash(username, password, salt);
        let g_x = big_modpow(self.params.g.as_slice(), x.as_slice(), n);
        let k_g = big_mul(self.params.k.as_slice(), g_x.as_slice());
        let k_g_x = big_rem(k_g.as_slice(), n);
        proof {
            lemma_min_be_len(be_value(server_public@));
            lemma_min_be_len(mod_pow(self.g(), be_value(x@), self.n()));
            lemma_min_be_len(self.k() * mod_pow(self.g(), be_value(x@), self.n()));
            lemma_min_be_len((self.k() * mod_pow(self.g(), be_value(x@), self.n())) % self.n());
        }
        let base = if big_ge(b_pub.as_slice(), k_g_x.as_slice()) {
            let d = big_sub(b_pub.as_slice(), k_g_x.as_slice());
            big_rem(d.as_slice(), n)
        } else {
            let d = big_sub(k_g_x.as_slice(), b_pub.as_slice());
            let dm = big_rem(d.as_slice(), n);
            proof {
                lemma_min_be_len((be_value(k_g_x@) - be_value(b_pub@)) as nat);
                lemma_min_be_len(((be_value(k_g_x@) - be_value(b_pub@)) as nat) % self.n());
            }
            let nd = big_sub(n, dm.as_slice());
            big_rem(nd.as_slice(), n)
        };
        proof {
            let b = be_value(server_public@);
            let kgx = (self.k() * mod_pow(self.g(), be_value(x@), self.n())) % self.n();
            if b >= kgx {
                lemma_min_be_len((b - kgx) as nat);
            } else {
                lemma_min_be_len((self.n() - ((kgx - b) as nat) % self.n()) as nat);
            }
        }
        let ux = big_mul(u.as_slice(), x.as_slice());
        let exp = big_add(self.a.as_slice(), ux.as_slice());
        proof {
            lemma_min_be_len(be_value(u@) * be_value(x@));
            lemma_min_be_len(self.a() + be_value(u@) * be_value(x@));
            lemma_min_be_len(client_base(
                self.n(),
                self.g(),
                self.k(),
                be_value(server_public@),
                be_value(x@),
            ));
        }
        let s_shared = big_modpow(base.as_slice(), exp.as_slice(), n);
        let k_hash = sha512_digest(s_shared.as_slice());
        let k_session = crate::bytes::copy_bytes(k_hash.as_slice());
        proof {
            lemma_min_be_len(be_value(self.public_key@));
        }
        let m1 = m1_hash(
            &self.params,
            username,
            salt,
            a_pub.as_slice(),
            b_pub.as_slice(),
            k_session.as_slice(),
        );
        Ok(SrpVerifier { a_pub, m1, k_session })
    }
}

/// An SRP-6a server: our secret `b`, the verifier `v` and our public value
/// `B = (k v + g^b) mod N` (padded to 384 bytes).
pub struct SrpServer {
    params: SrpParams,
    b: Vec<u8>,
    v: Vec<u8>,
    public_key: Vec<u8>,
    username: Option<Vec<u8>>,
    salt: Option<Vec<u8>>,
}

/// The username the server assumes when none was set: `Pair-Setup`.
pub open spec fn default_username() -> Seq<u8> {
    vstd::utf8::encode_utf8("Pair-Setup"@)
}

impl SrpServer {
    /// N, g and k are well formed.
    #[verifier::type_invariant]
    spec fn params_well_formed(&self) -> bool {
        params_ok(self.params)
    }

    /// The modulus N.
    pub closed spec fn n(&self) -> nat {
        be_value(self.params.n@)
    }

    /// The generator g.
    pub closed spec fn g(&self) -> nat {
        be_value(self.params.g@)
    }

    /// The multiplier k.
    pub closed spec fn k(&self) -> nat {
        be_value(self.params.k@)
    }

    /// Our secret exponent b.
    pub closed spec fn b(&self) -> nat {
        be_value(self.b@)
    }

    /// The password verifier v.
    pub closed spec fn v(&self) -> nat {
        be_value(self.v@)
    }

    /// Our public value as sent (B padded to 384 bytes).
    pub closed spec fn public(&self) -> Seq<u8> {
        self.public_key@
    }

    /// The username set for M1, if any.
    pub closed spec fn username(&self) -> Option<Seq<u8>> {
        match self.username {
            Some(u) => Some(u@),
            None => None,
        }
    }

    /// The salt set for M1, if any.
    pub closed spec fn salt(&self) -> Option<Seq<u8>> {
        match self.salt {
            Some(s) => Some(s@),
            None => None,
        }
    }

    /// The password verifier `v = g^x mod N`, padded to 384 bytes.
    pub fn compute_verifier(username: &[u8], password: &[u8], salt: &[u8], group: &SrpGroup) -> (r:
        Result<Vec<u8>, CryptoError>)
        requires
            group_ok(*group),
        ensures
            r is Ok <==> radix16_value(group.n_hex@) is Some,
            r matches Ok(v) ==> v@ == pad384(
                min_be(
                    mod_pow(
                        group.g as nat,
                        srp_x(username@, password@, salt@),
                        radix16_value(group.n_hex@).unwrap(),
                    ),
                ),
            ),
            r matches Err(e) ==> e matches CryptoError::SrpError(m) && m@ == "Failed to parse N"@,
    {
        let params = match group.to_params() {
            Ok(p) => p,
            Err(e) => return Err(e),
        };
        proof {
            lemma_min_be_len(radix16_value(group.n_hex@).unwrap());
            lemma_min_be_len(group.g as nat);
        }
        let x = x_hash(username, password, salt);
        let v = big_modpow(params.g.as_slice(), x.as_slice(), params.n.as_slice());
        Ok(pad_to_384(v))
    }

    /// Create a server session from a stored verifier: `b` is a random
    /// number below 2^256 taken modulo N, and `B = (k v + g^b) mod N`.
    pub fn new(verifier: &[u8], group: &SrpGroup) -> (r: Result<Self, CryptoError>)
        requires
            group_ok(*group),
        ensures
            r is Ok <==> radix16_value(group.n_hex@) is Some,
            r matches Ok(s) ==> {
                &&& s.n() == radix16_value(group.n_hex@).unwrap()
                &&& s.g() == group.g
                &&& s.k() == srp_k(s.n(), s.g())
                &&& s.v() == be_value(verifier@)
                &&& s.b() < s.n()
                &&& s.public() == pad384(
                    min_be((((s.k() * s.v()) % s.n()) + mod_pow(s.g(), s.b(), s.n())) % s.n()),
                )
                &&& s.username() is None
                &&& s.salt() is None
            },
            r matches Err(e) ==> e matches CryptoError::SrpError(m) && m@ == "Failed to parse N"@,
    {
        let params = match group.to_params() {
            Ok(p) => p,
            Err(e) => return Err(e),
        };
        proof {
            lemma_min_be_len(radix16_value(group.n_hex@).unwrap());
            lemma_min_be_len(group.g as nat);
            lemma_min_be_len(srp_k(radix16_value(group.n_hex@).unwrap(), group.g as nat));
            lemma_min_be_len(be_value(verifier@));
        }
        let v = big_normalize(verifier);
        let r0 = random_bits(SECRET_BITS);
        let b = big_rem(r0.as_slice(), params.n.as_slice());
        proof {
            lemma_min_be_len(be_value(r0@) % be_value(params.n@));
        }
        let g_b = big_modpow(params.g.as_slice(), b.as_slice(), params.n.as_slice());
        let kv = big_mul(params.k.as_slice(), v.as_slice());
        let k_v = big_rem(kv.as_slice(), params.n.as_slice());
        proof {
            let n = be_value(params.n@);
            lemma_min_be_len(be_value(params.k@) * be_value(verifier@));
            lemma_min_be_len((be_value(params.k@) * be_value(verifier@)) % n);
            lemma_min_be_len(mod_pow(be_value(params.g@), be_value(b@), n));
        }
        let sum = big_add(k_v.as_slice(), g_b.as_slice());
        proof {
            let n = be_value(params.n@);
            lemma_min_be_len(
                (be_value(params.k@) * be_value(verifier@)) % n + mod_pow(
                    be_value(params.g@),
                    be_value(b@),
                    n,
                ),
            );
        }
        let b_pub = big_rem(sum.as_slice(), params.n.as_slice());
        let public_key = pad_to_384(b_pub);
        Ok(Self { params, b, v, public_key, username: None, salt: None })
    }

    /// Set the username and salt that M1 is checked with.
    pub fn set_context(&mut self, username: &[u8], salt: &[u8])
        ensures
            final(self).username() == Some(username@),
            final(self).salt() == Some(salt@),
            final(self).n() == old(self).n(),
            final(self).g() == old(self).g(),
            final(self).k() == old(self).k(),
            final(self).b() == old(self).b(),
            final(self).v() == old(self).v(),
            final(self).public() == old(self).public(),
    {
        proof {
            use_type_invariant(&*self);
        }
        self.username = Some(crate::bytes::copy_bytes(username));
        self.salt = Some(crate::bytes::copy_bytes(salt));
    }

    /// Our public value B, padded to 384 bytes.
    pub fn public_key(&self) -> (r: &[u8])
        ensures
            r@ == self.public(),
    {
        self.public_key.as_slice()
    }

    /// Check the client's proof M1 and answer with the server proof M2:
    /// fails when `A mod N` is zero, when no salt was set, or when M1 does
    /// not match; otherwise `S = (A v^u)^b mod N`, `K = H(S)`.
    pub fn verify_client(&self, client_public: &[u8], client_proof: &[u8]) -> (r: Result<
        (SessionKey, Vec<u8>),
        CryptoError,
    >)
        requires
            be_value(client_public@) % self.n() == 0 || min_be(be_value(client_public@)).len()
                <= 384,
        ensures
            ({
                let a = be_value(client_public@);
                let u = srp_u(pad384(min_be(a)), self.public());
                let s = mod_pow((a * mod_pow(self.v(), u, self.n())) % self.n(), self.b(), self.n());
                let user = match self.username() {
                    Some(name) => name,
                    None => default_username(),
                };
                let m1 = srp_m1(
                    self.n(),
                    self.g(),
                    user,
                    self.salt().unwrap(),
                    a,
                    be_value(self.public()),
                    session_key(s),
                );
                &&& (r is Ok <==> a % self.n() != 0 && self.salt() is Some && client_proof@ == m1)
                &&& r matches Ok(res) ==> res.0@ == session_key(s) && res.1@ == srp_m2(
                    a,
                    client_proof@,
                    session_key(s),
                )
                &&& r matches Err(e) ==> e matches CryptoError::SrpError(msg) && msg@ == if a
                    % self.n() == 0 {
                    "Invalid client public key"@
                } else if self.salt() is None {
                    "Salt not set"@
                } else {
                    "Client proof verification failed"@
                }
            }),
    {
        proof {
            use_type_invariant(self);
        }
        let n = self.params.n.as_slice();
        let a_pub = big_normalize(client_public);
        let a_mod = big_rem(a_pub.as_slice(), n);
        if is_zero(&a_mod, Ghost(be_value(a_pub@) % be_value(n@))) {
            proof {
                lemma_min_be_len(be_value(client_public@));
            }
            return Err(CryptoError::SrpError(String::from_str("Invalid client public key")));
        }
        proof {
            lemma_min_be_len(be_value(client_public@));
        }
        let a_padded = pad_to_384(crate::bytes::copy_bytes(a_pub.as_slice()));
        let mut u_data: Vec<u8> = Vec::new();
        u_data.extend_from_slice(a_padded.as_slice());
        u_data.extend_from_slice(self.public_key.as_slice());
        assert(u_data@ =~= a_padded@ + self.public_key@);
        let u = sha512_digest(u_data.as_slice());
        let v_u = big_modpow(self.v.as_slice(), u.as_slice(), n);
        let av = big_mul(a_pub.as_slice(), v_u.as_slice());
        let base = big_rem(av.as_slice(), n);
        let s_shared = big_modpow(base.as_slice(), self.b.as_slice(), n);
        let k_hash = sha512_digest(s_shared.as_slice());
        let k_session = crate::bytes::copy_bytes(k_hash.as_slice());
        proof {
            let a = be_value(client_public@);
            let vu = mod_pow(self.v(), be_value(u@), self.n());
            lemma_min_be_len(vu);
            lemma_min_be_len(a * vu);
            lemma_min_be_len((a * vu) % self.n());
        }
        let default_user = "Pair-Setup".as_bytes();
        let username: &[u8] = match &self.username {
            Some(u) => u.as_slice(),
            None => default_user,
        };
        let salt: &[u8] = match &self.salt {
            Some(s) => s.as_slice(),
            None => return Err(CryptoError::SrpError(String::from_str("Salt not set"))),
        };
        let b_min = big_normalize(self.public_key.as_slice());
        proof {
            lemma_min_be_len(be_value(self.public_key@));
        }
        let expected_m1 = m1_hash(
            &self.params,
            username,
            salt,
            a_pub.as_slice(),
            b_min.as_slice(),
            k_session.as_slice(),
        );
        if !bytes_eq(expected_m1.as_slice(), client_proof) {
            return Err(CryptoError::SrpError(String::from_str("Client proof verification failed")));
        }
        let mut m2_data: Vec<u8> = Vec::new();
        m2_data.extend_from_slice(a_pub.as_slice());
        m2_data.extend_from_slice(client_proof);
        m2_data.extend_from_slice(k_session.as_slice());
        assert(m2_data@ =~= a_pub@ + client_proof@ + k_session@);
        let m2 = sha512_digest(m2_data.as_slice());
        Ok((SessionKey { key: k_session }, crate::bytes::copy_bytes(m2.as_slice())))
    }
}

proof fn lemma_mod_pow_of_power(g: nat, e1: nat, e2: nat, n: nat)
    requires
        n > 0,
    ensures
        mod_pow(mod_pow(g, e1, n), e2, n) == mod_pow(g, e1 * e2, n),
{
    let m = n as int;
    lemma_mod_bound(pow(g as int, e1), m);
    lemma_pow_mod_noop(pow(g as int, e1), e2, m);
    lemma_pow_multiplies(g as int, e1, e2);
}

/// The client's base `(B - k g^x) mod N` is `g^b mod N` when B was made as
/// the server makes it.
proof fn lemma_client_base(n: nat, g: nat, k: nat, x: nat, b: nat)
    requires
        n > 0,
    ensures
        client_base(
            n,
            g,
            k,
            ((k * mod_pow(g, x, n)) % n + mod_pow(g, b, n)) % n,
            x,
        ) == mod_pow(g, b, n),
{
    let m = n as int;
    let kk = ((k * mod_pow(g, x, n)) % n) as int;
    let gb = mod_pow(g, b, n) as int;
    lemma_mod_bound((k * mod_pow(g, x, n)) as int, m);
    lemma_mod_bound(pow(g as int, b), m);
    assert(0 <= kk < m);
    assert(0 <= gb < m);
    let bb: int = if kk + gb < m {
        kk + gb
    } else {
        kk + gb - m
    };
    if kk + gb < m {
        lemma_fundamental_div_mod_converse(kk + gb, m, 0, kk + gb);
    } else {
        lemma_fundamental_div_mod_converse(kk + gb, m, 1, kk + gb - m);
    }
    assert(((kk + gb) % m) == bb);
    if bb >= kk {
        assert(kk + gb < m);
        lemma_fundamental_div_mod_converse(bb - kk, m, 0, gb);
    } else {
        assert(kk - bb == m - gb);
        if gb == 0 {
            lemma_fundamental_div_mod_converse(m, m, 1, 0);
            lemma_fundamental_div_mod_converse(m - 0, m, 1, 0);
        } else {
            lemma_fundamental_div_mod_converse(m - gb, m, 0, m - gb);
            lemma_fundamental_div_mod_converse(gb, m, 0, gb);
        }
    }
}

/// SRP-6a agreement: a client with secret `a` and a server with secret `b`
/// and verifier `v = g^x mod N` (for the same password, salt and group)
/// that exchange `A = g^a mod N` and `B = (k v + g^b) mod N` and use the
/// same scrambler `u` compute the same premaster secret, hence the same
/// session key: both are `g^(b (a + u x)) mod N`.
pub proof fn lemma_srp_agreement(n: nat, g: nat, k: nat, x: nat, a: nat, b: nat, u: nat)
    requires
        n > 0,
    ensures
        ({
            let v = mod_pow(g, x, n);
            let a_pub = mod_pow(g, a, n);
            let b_pub = ((k * v) % n + mod_pow(g, b, n)) % n;
            let client_s = mod_pow(client_base(n, g, k, b_pub, x), a + u * x, n);
            let server_s = mod_pow((a_pub * mod_pow(v, u, n)) % n, b, n);
            &&& client_s == server_s
            &&& session_key(client_s) == session_key(server_s)
        }),
{
    let m = n as int;
    let v = mod_pow(g, x, n);
    let a_pub = mod_pow(g, a, n);
    lemma_client_base(n, g, k, x, b);
    lemma_mod_pow_of_power(g, b, a + u * x, n);
    lemma_mod_pow_of_power(g, x, u, n);
    let vu = mod_pow(v, u, n);
    assert(vu == mod_pow(g, x * u, n));
    lemma_mul_mod_noop_general(pow(g as int, a), pow(g as int, x * u), m);
    lemma_pow_adds(g as int, a, x * u);
    assert((a_pub * vu) % n == mod_pow(g, a + x * u, n));
    lemma_mod_pow_of_power(g, a + x * u, b, n);
    assert(b * (a + u * x) == (a + x * u) * b) by (nonlinear_arith);
}

/// Leading zero bytes do not change the number.
pub proof fn lemma_pad384_value(s: Seq<u8>)
    ensures
        be_value(pad384(s)) == be_value(s),
    decreases s.len(),
{
    if s.len() < 384 {
        lemma_zeros_prefix_value(Seq::new((384 - s.len()) as nat, |i: int| 0u8), s);
    }
}

proof fn lemma_zeros_prefix_value(z: Seq<u8>, s: Seq<u8>)
    requires
        forall|i: int| 0 <= i < z.len() ==> z[i] == 0,
    ensures
        be_value(z + s) == be_value(s),
    decreases s.len(),
{
    if s.len() == 0 {
        assert(z + s =~= z);
        lemma_zeros_value(z);
    } else {
        lemma_zeros_prefix_value(z, s.drop_last());
        assert((z + s).drop_last() =~= z + s.drop_last());
        assert((z + s).last() == s.last());
    }
}

proof fn lemma_zeros_value(z: Seq<u8>)
    requires
        forall|i: int| 0 <= i < z.len() ==> z[i] == 0,
    ensures
        be_value(z) == 0,
    decreases z.len(),
{
    if z.len() > 0 {
        lemma_zeros_value(z.drop_last());
    }
}

/// Both sides compute the same scrambler `u`: the client hashes its padded
/// A with the B it received (read back and padded again), the server the A
/// it received (read back and padded again) with its padded B.
pub proof fn lemma_srp_same_scrambler(a: nat, b: nat)
    ensures
        srp_u(pad384(min_be(a)), pad384(min_be(be_value(pad384(min_be(b)))))) == srp_u(
            pad384(min_be(be_value(pad384(min_be(a))))),
            pad384(min_be(b)),
        ),
{
    lemma_pad384_value(min_be(a));
    lemma_pad384_value(min_be(b));
    lemma_min_be_len(a);
    lemma_min_be_len(b);
}

} // verus!
