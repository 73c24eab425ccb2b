//! Diffie-Hellman key agreement in the 1024-bit MODP group with generator 2.
//!
//! Big numbers cross this module as big-endian byte strings. Their products
//! and remainders are computed by `num-bigint-dig`; the square-and-multiply
//! loop around them, which reads the exponent bit by bit, is verified
//! against `pow`.

use num_bigint_dig::BigUint;
use std::ops::{Mul, Rem};
use vstd::arithmetic::div_mod::*;
use vstd::arithmetic::power::*;
use vstd::prelude::*;
use vstd::slice::slice_to_vec;

use crate::crypto::{hkdf_expand, hkdf_sha256};
use crate::error::Error;
use crate::key::{wipe, Key, KeyStrength};

verus! {

/// The modulus of the group, big-endian.
pub const DH_PRIME: [u8; 128] = [
    0xFF, 0xFF, 0xFF, 0xFF, 0xFF, 0xFF, 0xFF, 0xFF, 0xC9, 0x0F, 0xDA, 0xA2, 0x21, 0x68,
    0xC2, 0x34, 0xC4, 0xC6, 0x62, 0x8B, 0x80, 0xDC, 0x1C, 0xD1, 0x29, 0x02, 0x4E, 0x08,
    0x8A, 0x67, 0xCC, 0x74, 0x02, 0x0B, 0xBE, 0xA6, 0x3B, 0x13, 0x9B, 0x22, 0x51, 0x4A,
    0x08, 0x79, 0x8E, 0x34, 0x04, 0xDD, 0xEF, 0x95, 0x19, 0xB3, 0xCD, 0x3A, 0x43, 0x1B,
    0x30, 0x2B, 0x0A, 0x6D, 0xF2, 0x5F, 0x14, 0x37, 0x4F, 0xE1, 0x35, 0x6D, 0x6D, 0x51,
    0xC2, 0x45, 0xE4, 0x85, 0xB5, 0x76, 0x62, 0x5E, 0x7E, 0xC6, 0xF4, 0x4C, 0x42, 0xE9,
    0xA6, 0x37, 0xED, 0x6B, 0x0B, 0xFF, 0x5C, 0xB6, 0xF4, 0x06, 0xB7, 0xED, 0xEE, 0x38,
    0x6B, 0xFB, 0x5A, 0x89, 0x9F, 0xA5, 0xAE, 0x9F, 0x24, 0x11, 0x7C, 0x4B, 0x1F, 0xE6,
    0x49, 0x28, 0x66, 0x51, 0xEC, 0xE6, 0x53, 0x81, 0xFF, 0xFF, 0xFF, 0xFF, 0xFF, 0xFF,
    0xFF, 0xFF,
];

/// The generator of the group.
pub const DH_GENERATOR: u8 = 2;

/// The length to which a shared secret is padded before key derivation.
pub const SHARED_SECRET_LEN: usize = 128;

/// The number that a big-endian byte string stands for. The empty string
/// stands for zero, and leading zero bytes do not count.
pub open spec fn be_nat(bytes: Seq<u8>) -> nat
    decreases bytes.len(),
{
    if bytes.len() == 0 {
        0
    } else {
        be_nat(bytes.drop_last()) * 256 + bytes.last() as nat
    }
}

/// The shortest big-endian byte string that stands for `n`; zero is the one
/// byte `0`.
pub open spec fn be_bytes(n: nat) -> Seq<u8>
    decreases n,
{
    if n < 256 {
        seq![n as u8]
    } else {
        be_bytes(n / 256).push((n % 256) as u8)
    }
}

/// The modulus as a number.
pub open spec fn dh_prime() -> nat {
    be_nat(DH_PRIME@)
}

/// `base` to the power `exp`, reduced by the modulus of the group.
pub open spec fn mod_exp(base: nat, exp: nat) -> nat {
    (pow(base as int, exp) % (dh_prime() as int)) as nat
}

/// `bytes` behind as many zero bytes as it takes to reach `len`; a string
/// that is already that long is left as it is.
pub open spec fn left_padded(bytes: Seq<u8>, len: nat) -> Seq<u8> {
    if bytes.len() >= len {
        bytes
    } else {
        Seq::new((len - bytes.len()) as nat, |i: int| 0u8) + bytes
    }
}

/// The public value that belongs to a private scalar, in its shortest form.
pub open spec fn public_key_of(private_key: Seq<u8>) -> Seq<u8> {
    be_bytes(mod_exp(DH_GENERATOR as nat, be_nat(private_key)))
}

/// The secret that a private scalar and the peer's public value agree on,
/// padded to 128 bytes.
pub open spec fn shared_secret_of(private_key: Seq<u8>, peer_public_key: Seq<u8>) -> Seq<u8> {
    left_padded(
        be_bytes(mod_exp(be_nat(peer_public_key), be_nat(private_key))),
        SHARED_SECRET_LEN as nat,
    )
}

/// The AES key that a private scalar and the peer's public value agree on:
/// 16 bytes expanded from the padded shared secret.
pub open spec fn shared_aes_key_of(private_key: Seq<u8>, peer_public_key: Seq<u8>) -> Seq<u8> {
    hkdf_sha256(shared_secret_of(private_key, peer_public_key), 16)
}

/// Decoding undoes the shortest encoding.
pub proof fn lemma_be_nat_of_be_bytes(n: nat)
    ensures
        be_nat(be_bytes(n)) == n,
    decreases n,
{
    if n < 256 {
        let s = seq![n as u8];
        assert(s.drop_last() =~= Seq::<u8>::empty());
        assert(be_nat(s.drop_last()) == 0);
    } else {
        lemma_be_nat_of_be_bytes(n / 256);
        let s = be_bytes(n / 256).push((n % 256) as u8);
        assert(s.drop_last() =~= be_bytes(n / 256));
        assert(s.last() == (n % 256) as u8);
    }
}

/// A string of `k` bytes stands for a number below `256^k`.
pub proof fn lemma_be_nat_bound(bytes: Seq<u8>)
    ensures
        be_nat(bytes) < pow(256, bytes.len()),
    decreases bytes.len(),
{
    reveal(pow);
    if bytes.len() > 0 {
        lemma_be_nat_bound(bytes.drop_last());
        let hi = be_nat(bytes.drop_last()) as int;
        let p = pow(256, bytes.drop_last().len());
        assert(pow(256, bytes.len()) == 256 * p);
        assert(hi * 256 + 255 < 256 * p) by (nonlinear_arith)
            requires
                hi < p,
        ;
    }
}

/// A number below `256^k` has a shortest encoding of at most `k` bytes,
/// for `k` of at least one.
pub proof fn lemma_be_bytes_len(n: nat, k: nat)
    requires
        k >= 1,
        n < pow(256, k),
    ensures
        1 <= be_bytes(n).len() <= k,
    decreases n,
{
    reveal(pow);
    if n >= 256 {
        if k == 1 {
            assert(pow(256, 1) == 256 * pow(256, 0));
            assert(false);
        }
        let p = pow(256, (k - 1) as nat);
        assert(pow(256, k) == 256 * p);
        assert(n / 256 < p) by (nonlinear_arith)
            requires
                n < 256 * p,
        ;
        lemma_be_bytes_len(n / 256, (k - 1) as nat);
    }
}

/// Zero bytes in front of a string do not change the number it stands for.
pub proof fn lemma_be_nat_left_padded(bytes: Seq<u8>, len: nat)
    ensures
        be_nat(left_padded(bytes, len)) == be_nat(bytes),
    decreases bytes.len(),
{
    if bytes.len() < len {
        let zeros = Seq::new((len - bytes.len()) as nat, |i: int| 0u8);
        if bytes.len() == 0 {
            assert(left_padded(bytes, len) =~= zeros);
            lemma_be_nat_zeros(zeros.len());
        } else {
            let shorter = bytes.drop_last();
            assert(left_padded(bytes, len).drop_last() =~= left_padded(shorter, (len - 1) as nat));
            lemma_be_nat_left_padded(shorter, (len - 1) as nat);
            assert(left_padded(bytes, len).last() == bytes.last());
        }
    }
}

/// A string of zero bytes stands for zero.
pub proof fn lemma_be_nat_zeros(len: nat)
    ensures
        be_nat(Seq::new(len, |i: int| 0u8)) == 0,
    decreases len,
{
    let zeros = Seq::new(len, |i: int| 0u8);
    if len > 0 {
        assert(zeros.drop_last() =~= Seq::new((len - 1) as nat, |i: int| 0u8));
        lemma_be_nat_zeros((len - 1) as nat);
    }
}

/// The modulus is larger than one and fits in 128 bytes.
pub proof fn lemma_dh_prime_bounds()
    ensures
        1 < dh_prime() < pow(256, 128),
{
    let bytes = DH_PRIME@;
    assert(bytes.len() == 128);
    assert(bytes.last() == 0xFF);
    lemma_be_nat_bound(bytes);
}

/// One round of square-and-multiply from the top bit down: squaring the
/// power for the bits read so far, and multiplying by the base where the
/// next bit is set, gives the power for one bit more.
proof fn lemma_square_and_multiply_step(b: nat, t: nat, p: nat)
    requires
        p > 0,
    ensures
        (((pow(b as int, t) % (p as int)) * (pow(b as int, t) % (p as int))) % (p as int)) == pow(
            b as int,
            2 * t,
        ) % (p as int),
        (((pow(b as int, 2 * t) % (p as int)) * b) % (p as int)) == pow(b as int, 2 * t + 1) % (
        p as int),
{
    let m = p as int;
    let bi = b as int;
    let x = pow(bi, t);
    let y = pow(bi, 2 * t);
    lemma_mul_mod_noop_general(x, x, m);
    assert(x * x == y) by {
        lemma_pow_adds(bi, t, t);
    }
    lemma_mul_mod_noop_general(y, bi, m);
    assert(y * bi == pow(bi, 2 * t + 1)) by {
        lemma_pow_adds(bi, 2 * t, 1);
        lemma_pow1(bi);
    }
}

/// Bit `j` of a byte, counted from the most significant one.
pub open spec fn bit_at(byte: u8, j: nat) -> nat {
    ((byte >> ((7 - j) as u8)) & 1u8) as nat
}

/// The number that the bytes before one byte and the top `k` bits of that
/// byte stand for, where the bytes before it stand for `high`.
pub open spec fn prefix_value(high: nat, byte: u8, k: nat) -> nat
    decreases k,
{
    if k == 0 {
        high
    } else {
        2 * prefix_value(high, byte, (k - 1) as nat) + bit_at(byte, (k - 1) as nat)
    }
}

/// All eight bits of a byte make the byte.
proof fn lemma_prefix_value_full(high: nat, byte: u8)
    ensures
        prefix_value(high, byte, 8) == high * 256 + byte,
{
    reveal_with_fuel(prefix_value, 9);
    assert(byte == 128 * ((byte >> 7u8) & 1u8) + 64 * ((byte >> 6u8) & 1u8) + 32 * ((byte >> 5u8)
        & 1u8) + 16 * ((byte >> 4u8) & 1u8) + 8 * ((byte >> 3u8) & 1u8) + 4 * ((byte >> 2u8) & 1u8)
        + 2 * ((byte >> 1u8) & 1u8) + ((byte >> 0u8) & 1u8)) by (bit_vector);
}

/// Trusted: `Mul::mul` on two `BigUint`s, between `BigUint::from_bytes_be`
/// and `BigUint::to_bytes_be`. It hands back the product in its shortest
/// form.
#[verifier::external_body]
fn big_mul(a: &[u8], b: &[u8]) -> (product: Vec<u8>)
    ensures
        product@ == be_bytes(be_nat(a@) * be_nat(b@)),
{
    (&BigUint::from_bytes_be(a)).mul(&BigUint::from_bytes_be(b)).to_bytes_be()
}

/// Trusted: `Rem::rem` on two `BigUint`s, between `BigUint::from_bytes_be`
/// and `BigUint::to_bytes_be`. It hands back the remainder of `a` divided by
/// `m` in its shortest form. A zero divisor, on which it panics, is left
/// out.
#[verifier::external_body]
fn big_rem(a: &[u8], m: &[u8]) -> (remainder: Vec<u8>)
    requires
        be_nat(m@) > 0,
    ensures
        remainder@ == be_bytes(be_nat(a@) % be_nat(m@)),
{
    (&BigUint::from_bytes_be(a)).rem(&BigUint::from_bytes_be(m)).to_bytes_be()
}

/// The product of two numbers, reduced by the modulus of the group.
fn mul_mod_prime(a: &[u8], b: &[u8]) -> (reduced: Vec<u8>)
    ensures
        reduced@ == be_bytes((be_nat(a@) * be_nat(b@)) % dh_prime()),
        be_nat(reduced@) == (be_nat(a@) * be_nat(b@)) % dh_prime(),
        be_nat(reduced@) < dh_prime(),
{
    proof {
        lemma_dh_prime_bounds();
        lemma_be_nat_of_be_bytes(be_nat(a@) * be_nat(b@));
        lemma_be_nat_of_be_bytes((be_nat(a@) * be_nat(b@)) % dh_prime());
        lemma_mod_pos_bound((be_nat(a@) * be_nat(b@)) as int, dh_prime() as int);
    }
    let mut product = big_mul(a, b);
    let reduced = big_rem(product.as_slice(), DH_PRIME.as_slice());
    wipe(&mut product);
    reduced
}

/// Modular exponentiation in the group by square-and-multiply: `base` to the
/// power `exp`, reduced by the modulus, in its shortest big-endian form.
///
/// The bits of the exponent are read from the most significant one down.
/// Each bit is cleared in the buffer once it is read, and the buffer is
/// wiped at the end. Leading zero bits cost no multiplication, so the
/// running time depends on the bit length of the exponent.
pub fn powm(base: &[u8], exp: Vec<u8>) -> (result: Vec<u8>)
    ensures
        result@ == be_bytes(mod_exp(be_nat(base@), be_nat(exp@))),
{
    let ghost b0: nat = be_nat(base@);
    let ghost e0: Seq<u8> = exp@;
    let ghost p: int = dh_prime() as int;
    let mut exp = exp;
    let mut result: Vec<u8> = vec![1u8];
    let mut started = false;
    proof {
        lemma_dh_prime_bounds();
        lemma_pow0(b0 as int);
        lemma_small_mod(1, p as nat);
        assert(result@.drop_last() =~= Seq::<u8>::empty());
        assert(be_nat(result@.drop_last()) == 0);
        assert(be_bytes(1) =~= seq![1u8]);
        assert(e0.take(0) =~= Seq::<u8>::empty());
    }
    let mut i: usize = 0;
    while i < exp.len()
        invariant
            p == dh_prime(),
            1 < p,
            b0 == be_nat(base@),
            i <= exp@.len(),
            exp@.len() == e0.len(),
            forall|j: int| i <= j < exp@.len() ==> exp@[j] == e0[j],
            result@ == be_bytes(mod_exp(b0, be_nat(e0.take(i as int)))),
            !started ==> be_nat(e0.take(i as int)) == 0,
        decreases exp@.len() - i,
    {
        let byte = exp[i];
        let ghost high: nat = be_nat(e0.take(i as int));
        let mut k: u8 = 0;
        while k < 8
            invariant
                p == dh_prime(),
                1 < p,
                b0 == be_nat(base@),
                k <= 8,
                i < exp@.len(),
                exp@.len() == e0.len(),
                byte == e0[i as int],
                forall|j: int| i < j < exp@.len() ==> exp@[j] == e0[j],
                result@ == be_bytes(mod_exp(b0, prefix_value(high, byte, k as nat))),
                !started ==> prefix_value(high, byte, k as nat) == 0,
            decreases 8 - k,
        {
            let bit = (byte >> (7 - k)) & 1;
            let ghost t: nat = prefix_value(high, byte, k as nat);
            proof {
                assert(bit == bit_at(byte, k as nat));
                assert(bit <= 1) by (bit_vector)
                    requires
                        bit == (byte >> (7 - k) as u8) & 1,
                ;
                assert(prefix_value(high, byte, (k + 1) as nat) == 2 * t + bit);
                lemma_square_and_multiply_step(b0, t, p as nat);
                lemma_mod_bound(pow(b0 as int, t), p);
                lemma_mod_bound(pow(b0 as int, 2 * t), p);
                lemma_be_nat_of_be_bytes(mod_exp(b0, t));
                lemma_be_nat_of_be_bytes(mod_exp(b0, 2 * t));
            }
            if started {
                let squared = mul_mod_prime(result.as_slice(), result.as_slice());
                wipe(&mut result);
                result = squared;
            }
            if bit == 1 {
                let multiplied = mul_mod_prime(result.as_slice(), base);
                wipe(&mut result);
                result = multiplied;
                started = true;
            }
            exp.set(i, byte & (0x7F >> k));
            k = k + 1;
        }
        proof {
            lemma_prefix_value_full(high, byte);
            assert(e0.take(i + 1).drop_last() =~= e0.take(i as int));
            assert(e0.take(i + 1).last() == byte);
        }
        i = i + 1;
    }
    assert(e0.take(i as int) =~= e0);
    wipe(&mut exp);
    result
}

/// `bytes` behind as many zero bytes as it takes to reach `len`.
pub fn left_pad(bytes: &[u8], len: usize) -> (padded: Vec<u8>)
    ensures
        padded@ == left_padded(bytes@, len as nat),
{
    if bytes.len() >= len {
        return slice_to_vec(bytes);
    }
    let missing: usize = len - bytes.len();
    let mut padded: Vec<u8> = vec![0u8; missing];
    padded.extend_from_slice(bytes);
    assert(padded@ =~= left_padded(bytes@, len as nat));
    padded
}

/// The public value of a private scalar: the generator to the power of the
/// scalar, reduced by the modulus, as the shortest big-endian byte string.
pub fn generate_public_key(private_key: &[u8]) -> (result: Result<Vec<u8>, Error>)
    ensures
        result matches Ok(public_key) && public_key@ == public_key_of(private_key@),
{
    let generator: Vec<u8> = vec![DH_GENERATOR];
    proof {
        assert(generator@.drop_last() =~= Seq::<u8>::empty());
        assert(be_nat(generator@.drop_last()) == 0);
        assert(be_nat(generator@) == DH_GENERATOR as nat);
    }
    Ok(powm(generator.as_slice(), slice_to_vec(private_key)))
}

/// The AES key shared with a peer: the peer's public value to the power of
/// the private scalar, reduced by the modulus, padded with zero bytes on the
/// left to 128 bytes, and expanded to 16 bytes by HKDF with SHA-256.
pub fn generate_aes_key(private_key: &[u8], server_public_key: &[u8]) -> (result: Result<
    Key,
    Error,
>)
    ensures
        result matches Ok(key) && key@ == shared_aes_key_of(private_key@, server_public_key@)
            && key@.len() == 16 && key.spec_strength() == KeyStrength::Strong,
{
    let mut common_secret = powm(server_public_key, slice_to_vec(private_key));
    proof {
        let n = mod_exp(be_nat(server_public_key@), be_nat(private_key@));
        lemma_dh_prime_bounds();
        lemma_mod_bound(
            pow(be_nat(server_public_key@) as int, be_nat(private_key@)),
            dh_prime() as int,
        );
        lemma_be_bytes_len(n, 128);
    }
    let mut ikm = left_pad(common_secret.as_slice(), SHARED_SECRET_LEN);
    wipe(&mut common_secret);
    let okm = hkdf_expand(ikm.as_slice());
    wipe(&mut ikm);
    Ok(Key::new(okm, KeyStrength::Strong))
}

/// Raising to two exponents in turn, with a reduction in between, does not
/// depend on the order of the exponents.
pub proof fn lemma_mod_exp_commutes(base: nat, a: nat, b: nat)
    ensures
        mod_exp(mod_exp(base, a), b) == mod_exp(mod_exp(base, b), a),
{
    let g = base as int;
    let p = dh_prime() as int;
    lemma_dh_prime_bounds();
    lemma_mod_bound(pow(g, a), p);
    lemma_mod_bound(pow(g, b), p);
    lemma_pow_mod_noop(pow(g, a), b, p);
    lemma_pow_mod_noop(pow(g, b), a, p);
    lemma_pow_multiplies(g, a, b);
    lemma_pow_multiplies(g, b, a);
    assert(a * b == b * a) by (nonlinear_arith);
}

/// Both sides of an exchange derive the same AES key: the key that one
/// private scalar gives with the public value of another is the key that
/// the other gives with the public value of the first.
pub proof fn lemma_shared_key_agreement(a: Seq<u8>, b: Seq<u8>)
    ensures
        shared_aes_key_of(a, public_key_of(b)) == shared_aes_key_of(b, public_key_of(a)),
{
    let g = DH_GENERATOR as nat;
    lemma_be_nat_of_be_bytes(mod_exp(g, be_nat(a)));
    lemma_be_nat_of_be_bytes(mod_exp(g, be_nat(b)));
    lemma_mod_exp_commutes(g, be_nat(a), be_nat(b));
}

/// Zero bytes in front of the peer's public value do not change the key.
pub proof fn lemma_shared_key_ignores_padding(private_key: Seq<u8>, peer: Seq<u8>, len: nat)
    ensures
        shared_aes_key_of(private_key, left_padded(peer, len)) == shared_aes_key_of(
            private_key,
            peer,
        ),
{
    lemma_be_nat_left_padded(peer, len);
}

} // verus!
