//! Cipher primitives: AES-128-CBC, HMAC-SHA-256, MD5 and SHA-256 digests,
//! PBKDF2, HKDF, the legacy hash-chain derivation and random bytes.
//!
//! The primitives themselves are computed by the RustCrypto crates. What they
//! return is named here by spec functions without a body; the PKCS#7
//! padding, the length checks and the derivation chains around them are
//! stated in full and verified.

use cipher::block_padding::{NoPadding, Pkcs7};
use cipher::rand_core::{OsRng, RngCore};
use cipher::{BlockDecryptMut, BlockEncryptMut, KeyIvInit};
use digest::{Digest, Mac};
use subtle::ConstantTimeEq;
use vstd::prelude::*;
use vstd::slice::{slice_subrange, slice_to_vec};

use crate::error::Error;
use crate::key::{wipe, Key, KeyStrength, Secret};

verus! {

/// Length in bytes of an AES-128 key, of a cipher block and of an
/// initialisation vector.
pub const KEY_LEN: usize = 16;

pub const BLOCK_LEN: usize = 16;

pub const IV_LEN: usize = 16;

/// Length in bytes of an HMAC-SHA-256 tag and of a SHA-256 digest.
pub const MAC_LEN: usize = 32;

pub const SHA256_LEN: usize = 32;

/// Length in bytes of an MD5 digest.
pub const MD5_LEN: usize = 16;

/// What AES-128 in CBC mode makes of block-aligned `data` under `key` and
/// `iv`, as `cbc::Encryptor<aes::Aes128>` computes it.
pub uninterp spec fn aes128_cbc_encrypted(data: Seq<u8>, key: Seq<u8>, iv: Seq<u8>) -> Seq<u8>;

/// What AES-128 in CBC mode recovers from block-aligned `data` under `key`
/// and `iv`, as `cbc::Decryptor<aes::Aes128>` computes it.
pub uninterp spec fn aes128_cbc_decrypted(data: Seq<u8>, key: Seq<u8>, iv: Seq<u8>) -> Seq<u8>;

/// The HMAC-SHA-256 tag of `data` under `key`, as `hmac::Hmac<sha2::Sha256>`
/// computes it.
pub uninterp spec fn hmac_sha256(key: Seq<u8>, data: Seq<u8>) -> Seq<u8>;

/// The MD5 digest of `data`, as `md5::Md5` computes it.
pub uninterp spec fn md5_digest(data: Seq<u8>) -> Seq<u8>;

/// The SHA-256 digest of `data`, as `sha2::Sha256` computes it.
pub uninterp spec fn sha256_digest(data: Seq<u8>) -> Seq<u8>;

/// The first `len` bytes that PBKDF2 with HMAC-SHA-256 derives from `secret`
/// and `salt` in `rounds` rounds, as `pbkdf2::pbkdf2` computes them.
pub uninterp spec fn pbkdf2_hmac_sha256(
    secret: Seq<u8>,
    salt: Seq<u8>,
    rounds: u32,
    len: nat,
) -> Seq<u8>;

/// The first `len` bytes that HKDF with SHA-256 expands from `ikm`, without
/// salt and with empty info, as `hkdf::Hkdf<sha2::Sha256>` computes them.
pub uninterp spec fn hkdf_sha256(ikm: Seq<u8>, len: nat) -> Seq<u8>;

/// A message with its PKCS#7 padding: between 1 and 16 bytes are added, each
/// of them holding the number of bytes added.
pub open spec fn pkcs7_padded(plain: Seq<u8>) -> Seq<u8> {
    let fill = 16 - plain.len() % 16;
    plain + Seq::new(fill as nat, |i: int| fill as u8)
}

/// A padded message without its PKCS#7 padding, or `None` where the padding
/// is malformed: the last byte must be between 1 and 16 and be repeated that
/// many times at the end.
pub open spec fn pkcs7_unpadded(padded: Seq<u8>) -> Option<Seq<u8>> {
    if padded.len() == 0 {
        None
    } else {
        let fill = padded.last() as int;
        if fill < 1 || fill > 16 || fill > padded.len() {
            None
        } else if forall|i: int| padded.len() - fill <= i < padded.len() ==> padded[i] == fill {
            Some(padded.take(padded.len() - fill))
        } else {
            None
        }
    }
}

/// The length of a padded message: the next multiple of 16 above the length
/// of the message.
pub open spec fn padded_len(plain_len: nat) -> nat {
    (plain_len / 16 + 1) * 16
}

/// Padding reaches the next multiple of 16, and unpadding undoes padding.
pub proof fn lemma_pkcs7_round_trip(plain: Seq<u8>)
    ensures
        pkcs7_padded(plain).len() == padded_len(plain.len()),
        pkcs7_padded(plain).len() % 16 == 0,
        pkcs7_unpadded(pkcs7_padded(plain)) == Some(plain),
{
    let fill = 16 - plain.len() % 16;
    let padded = pkcs7_padded(plain);
    assert(padded.len() == plain.len() + fill);
    assert(padded.last() == fill as u8);
    assert(padded.take(padded.len() - fill) =~= plain);
    assert(padded.len() == (plain.len() / 16 + 1) * 16) by (nonlinear_arith)
        requires
            padded.len() == plain.len() + 16 - plain.len() % 16,
    ;
}

/// What encryption returns on each input. A message so long that its
/// padding does not fit into the address space, which no machine holds, is
/// a crypto failure.
pub open spec fn spec_encrypt(plain: Seq<u8>, key: Seq<u8>, iv: Seq<u8>) -> Result<Seq<u8>, Error> {
    if key.len() != 16 || iv.len() != 16 {
        Err(Error::InvalidKeyOrIvLength)
    } else if plain.len() + 16 > usize::MAX {
        Err(Error::Crypto)
    } else {
        Ok(aes128_cbc_encrypted(pkcs7_padded(plain), key, iv))
    }
}

/// What decryption with padding returns on each input.
pub open spec fn spec_decrypt(cipher: Seq<u8>, key: Seq<u8>, iv: Seq<u8>) -> Result<Seq<u8>, Error> {
    if key.len() != 16 || iv.len() != 16 {
        Err(Error::InvalidKeyOrIvLength)
    } else if cipher.len() % 16 != 0 {
        Err(Error::Unpad)
    } else {
        match pkcs7_unpadded(aes128_cbc_decrypted(cipher, key, iv)) {
            Some(plain) => Ok(plain),
            None => Err(Error::Unpad),
        }
    }
}

/// What decryption without padding returns on each input.
pub open spec fn spec_decrypt_no_padding(cipher: Seq<u8>, key: Seq<u8>, iv: Seq<u8>) -> Result<
    Seq<u8>,
    Error,
> {
    if key.len() != 16 || iv.len() != 16 {
        Err(Error::InvalidKeyOrIvLength)
    } else if cipher.len() % 16 != 0 {
        Err(Error::Unpad)
    } else {
        Ok(aes128_cbc_decrypted(cipher, key, iv))
    }
}

/// The cipher undoes itself on the padded message: decrypting the
/// encrypted blocks gives the blocks back, and there are as many of them.
pub open spec fn cbc_faithful(plain: Seq<u8>, key: Seq<u8>, iv: Seq<u8>) -> bool {
    let padded = pkcs7_padded(plain);
    let blob = aes128_cbc_encrypted(padded, key, iv);
    blob.len() == padded.len() && aes128_cbc_decrypted(blob, key, iv) == padded
}

/// Decryption undoes encryption: where the cipher undoes itself on the
/// padded message, decrypting what encryption returns, with the same key
/// and vector, gives the message back.
pub proof fn lemma_decrypt_inverts_encrypt(plain: Seq<u8>, key: Seq<u8>, iv: Seq<u8>)
    requires
        spec_encrypt(plain, key, iv) is Ok,
        cbc_faithful(plain, key, iv),
    ensures
        spec_encrypt(plain, key, iv)->Ok_0.len() == padded_len(plain.len()),
        spec_decrypt(spec_encrypt(plain, key, iv)->Ok_0, key, iv) == Ok::<Seq<u8>, Error>(plain),
{
    lemma_pkcs7_round_trip(plain);
}

/// Trusted: `encrypt_padded_b2b_mut::<Pkcs7>` of `cbc::Encryptor<aes::Aes128>`.
/// It pads `plain` by PKCS#7, encrypts the blocks into the front of `out` and
/// returns how many bytes it wrote; the length of `out` stays.
/// Decrypting what it wrote, with the same key and vector, gives the padded
/// message back. Keys and vectors of another length than 16 and an output
/// buffer that cannot hold the padded message, on which it fails, are left
/// out.
#[verifier::external_body]
fn cbc_encrypt_pkcs7(plain: &[u8], key: &[u8], iv: &[u8], out: &mut Vec<u8>) -> (written: usize)
    requires
        key@.len() == 16,
        iv@.len() == 16,
        old(out)@.len() >= plain@.len() + 16,
    ensures
        final(out)@.len() == old(out)@.len(),
        written == pkcs7_padded(plain@).len(),
        final(out)@.take(written as int) == aes128_cbc_encrypted(pkcs7_padded(plain@), key@, iv@),
        aes128_cbc_decrypted(final(out)@.take(written as int), key@, iv@) == pkcs7_padded(plain@),
{
    cbc::Encryptor::<aes::Aes128>::new_from_slices(key, iv)
        .expect("key and iv are 16 bytes long")
        .encrypt_padded_b2b_mut::<Pkcs7>(plain, out.as_mut_slice())
        .expect("the buffer holds the padded message")
        .len()
}

/// Trusted: `decrypt_padded_mut::<Pkcs7>` of `cbc::Decryptor<aes::Aes128>`.
/// It decrypts `data` in place and returns the length of the message without
/// its PKCS#7 padding, which then stands at the front of `data`. It returns
/// `None` where the length of `data` is no multiple of 16 or the padding is
/// malformed. Keys and vectors of another length than 16 are left out.
#[verifier::external_body]
fn cbc_decrypt_pkcs7(data: &mut Vec<u8>, key: &[u8], iv: &[u8]) -> (plain_len: Option<usize>)
    requires
        key@.len() == 16,
        iv@.len() == 16,
    ensures
        final(data)@.len() == old(data)@.len(),
        match plain_len {
            Some(n) => {
                &&& n <= old(data)@.len()
                &&& old(data)@.len() % 16 == 0
                &&& pkcs7_unpadded(aes128_cbc_decrypted(old(data)@, key@, iv@)) == Some(
                    final(data)@.take(n as int),
                )
            },
            None => {
                ||| old(data)@.len() % 16 != 0
                ||| pkcs7_unpadded(aes128_cbc_decrypted(old(data)@, key@, iv@)) is None
            },
        },
{
    match cbc::Decryptor::<aes::Aes128>::new_from_slices(key, iv)
        .expect("key and iv are 16 bytes long")
        .decrypt_padded_mut::<Pkcs7>(data.as_mut_slice())
    {
        Ok(plain) => Some(plain.len()),
        Err(_) => None,
    }
}

/// Trusted: `decrypt_padded_mut::<NoPadding>` of
/// `cbc::Decryptor<aes::Aes128>`. It decrypts `data` in place and returns
/// `true`, or leaves it and returns `false` where the length of `data` is no
/// multiple of 16. Keys and vectors of another length than 16 are left out.
#[verifier::external_body]
fn cbc_decrypt_no_padding(data: &mut Vec<u8>, key: &[u8], iv: &[u8]) -> (done: bool)
    requires
        key@.len() == 16,
        iv@.len() == 16,
    ensures
        final(data)@.len() == old(data)@.len(),
        done == (old(data)@.len() % 16 == 0),
        done ==> final(data)@ == aes128_cbc_decrypted(old(data)@, key@, iv@),
        !done ==> final(data)@ == old(data)@,
{
    cbc::Decryptor::<aes::Aes128>::new_from_slices(key, iv)
        .expect("key and iv are 16 bytes long")
        .decrypt_padded_mut::<NoPadding>(data.as_mut_slice())
        .is_ok()
}

/// Encrypts `data` with AES-128-CBC and PKCS#7 padding.
///
/// The result is 16 bytes times the number of blocks that the padded message
/// takes, and decrypting it with the same key and vector gives `data` back.
pub fn encrypt(data: &[u8], key: &Key, iv: &[u8]) -> (result: Result<Vec<u8>, Error>)
    ensures
        match result {
            Ok(blob) => {
                &&& spec_encrypt(data@, key@, iv@) == Ok::<Seq<u8>, Error>(blob@)
                &&& blob@.len() == padded_len(data@.len())
                &&& spec_decrypt(blob@, key@, iv@) == Ok::<Seq<u8>, Error>(data@)
            },
            Err(e) => spec_encrypt(data@, key@, iv@) == Err::<Seq<u8>, Error>(e),
        },
{
    if key.len() != KEY_LEN || iv.len() != IV_LEN {
        return Err(Error::InvalidKeyOrIvLength);
    }
    let room: usize = match data.len().checked_add(BLOCK_LEN) {
        Some(room) => room,
        None => {
            return Err(Error::Crypto);
        },
    };
    let mut blob: Vec<u8> = vec![0u8; room];
    let encrypted_len = cbc_encrypt_pkcs7(data, key.as_view(), iv, &mut blob);
    proof {
        lemma_decrypt_inverts_encrypt(data@, key@, iv@);
    }
    blob.truncate(encrypted_len);
    Ok(blob)
}

/// Decrypts `blob` with AES-128-CBC and removes the PKCS#7 padding.
pub fn decrypt(blob: &[u8], key: &Key, iv: &[u8]) -> (result: Result<Secret, Error>)
    ensures
        match result {
            Ok(plain) => spec_decrypt(blob@, key@, iv@) == Ok::<Seq<u8>, Error>(plain@),
            Err(e) => spec_decrypt(blob@, key@, iv@) == Err::<Seq<u8>, Error>(e),
        },
{
    if key.len() != KEY_LEN || iv.len() != IV_LEN {
        return Err(Error::InvalidKeyOrIvLength);
    }
    let mut data: Vec<u8> = slice_to_vec(blob);
    match cbc_decrypt_pkcs7(&mut data, key.as_view(), iv) {
        Some(plain_len) => {
            data.truncate(plain_len);
            Ok(Secret::new(data))
        },
        None => {
            wipe(&mut data);
            Err(Error::Unpad)
        },
    }
}

/// Decrypts `blob` with AES-128-CBC where the message is known to fill whole
/// blocks: nothing is removed from it.
pub fn decrypt_no_padding(blob: &[u8], key: &Key, iv: &[u8]) -> (result: Result<Secret, Error>)
    ensures
        match result {
            Ok(plain) => spec_decrypt_no_padding(blob@, key@, iv@) == Ok::<Seq<u8>, Error>(plain@),
            Err(e) => spec_decrypt_no_padding(blob@, key@, iv@) == Err::<Seq<u8>, Error>(e),
        },
{
    if key.len() != KEY_LEN || iv.len() != IV_LEN {
        return Err(Error::InvalidKeyOrIvLength);
    }
    let mut data: Vec<u8> = slice_to_vec(blob);
    if cbc_decrypt_no_padding(&mut data, key.as_view(), iv) {
        Ok(Secret::new(data))
    } else {
        Err(Error::Unpad)
    }
}

/// The length of an initialisation vector.
pub fn iv_len() -> (n: usize)
    ensures
        n == 16,
{
    IV_LEN
}

/// The length of an authentication tag.
pub fn mac_len() -> (n: usize)
    ensures
        n == 32,
{
    MAC_LEN
}

/// Trusted: `try_fill_bytes` of `cipher::rand_core::OsRng`. It fills the
/// buffer from the random source of the operating system and tells whether
/// that source delivered; the length of the buffer stays. Nothing is claimed
/// of the bytes.
#[verifier::external_body]
fn os_random_fill(buffer: &mut Vec<u8>) -> (filled: bool)
    ensures
        final(buffer)@.len() == old(buffer)@.len(),
{
    OsRng.try_fill_bytes(buffer.as_mut_slice()).is_ok()
}

/// A buffer of `len` random bytes, or `Error::Crypto` where the random
/// source of the operating system fails.
fn random_bytes(len: usize) -> (result: Result<Vec<u8>, Error>)
    ensures
        match result {
            Ok(bytes) => bytes@.len() == len,
            Err(e) => e == Error::Crypto,
        },
{
    let mut buffer: Vec<u8> = vec![0u8; len];
    if os_random_fill(&mut buffer) {
        Ok(buffer)
    } else {
        Err(Error::Crypto)
    }
}

/// A fresh private scalar for the key exchange: 16 random bytes, tagged
/// strong. It fails with `Error::Crypto` only where the random source fails.
pub fn generate_private_key() -> (result: Result<Key, Error>)
    ensures
        match result {
            Ok(key) => key@.len() == 16 && key.spec_strength() == KeyStrength::Strong,
            Err(e) => e == Error::Crypto,
        },
{
    match random_bytes(KEY_LEN) {
        Ok(bytes) => Ok(Key::new(bytes, KeyStrength::Strong)),
        Err(e) => Err(e),
    }
}

/// A fresh initialisation vector: 16 random bytes. It fails with
/// `Error::Crypto` only where the random source fails.
pub fn generate_iv() -> (result: Result<Vec<u8>, Error>)
    ensures
        match result {
            Ok(iv) => iv@.len() == 16,
            Err(e) => e == Error::Crypto,
        },
{
    random_bytes(IV_LEN)
}

/// Trusted: `Mac::new_from_slice`, `update` and `finalize` of
/// `hmac::Hmac<sha2::Sha256>`, which accepts a key of any length. It returns
/// the tag of `data` under `key`, 32 bytes long.
#[verifier::external_body]
fn hmac_sha256_tag(key: &[u8], data: &[u8]) -> (tag: Vec<u8>)
    ensures
        tag@ == hmac_sha256(key@, data@),
        tag@.len() == 32,
{
    let mut mac = <hmac::Hmac<sha2::Sha256> as Mac>::new_from_slice(key)
        .expect("HMAC takes a key of any length");
    mac.update(data);
    mac.finalize().into_bytes().to_vec()
}

/// Trusted: `Mac::verify_slice` of `hmac::Hmac<sha2::Sha256>`. It compares
/// `expected` with the tag of `data` under `key` in constant time, and
/// accepts only a tag of the full length that is equal to it.
#[verifier::external_body]
fn hmac_sha256_verify(key: &[u8], data: &[u8], expected: &[u8]) -> (valid: bool)
    ensures
        valid == (expected@ == hmac_sha256(key@, data@)),
{
    let mut mac = <hmac::Hmac<sha2::Sha256> as Mac>::new_from_slice(key)
        .expect("HMAC takes a key of any length");
    mac.update(data);
    mac.verify_slice(expected).is_ok()
}

/// The HMAC-SHA-256 tag of `data` under `key`: it is 32 bytes long and
/// depends on the two alone.
pub fn compute_mac(data: &[u8], key: &Key) -> (result: Result<Vec<u8>, Error>)
    ensures
        result matches Ok(tag) && tag@ == hmac_sha256(key@, data@) && tag@.len() == 32,
{
    Ok(hmac_sha256_tag(key.as_view(), data))
}

/// Whether `expected` is the HMAC-SHA-256 tag of `data` under `key`. The
/// comparison takes constant time; a mismatch is not an error.
pub fn verify_mac(data: &[u8], key: &Key, expected: &[u8]) -> (result: Result<bool, Error>)
    ensures
        result matches Ok(valid) && valid == (expected@ == hmac_sha256(key@, data@)),
{
    Ok(hmac_sha256_verify(key.as_view(), data, expected))
}

/// Trusted: `Digest::digest` of `md5::Md5`. It returns the digest of
/// `content`, 16 bytes long.
#[verifier::external_body]
fn md5_hash(content: &[u8]) -> (hash: Vec<u8>)
    ensures
        hash@ == md5_digest(content@),
        hash@.len() == 16,
{
    md5::Md5::digest(content).to_vec()
}

/// Trusted: `ConstantTimeEq::ct_eq` of the `subtle` crate on two byte
/// slices. It tells whether the two have the same length and the same bytes.
#[verifier::external_body]
fn constant_time_eq(a: &[u8], b: &[u8]) -> (equal: bool)
    ensures
        equal == (a@ == b@),
{
    a.ct_eq(b).into()
}

/// Whether `digest` is the MD5 digest of `content`, compared in constant
/// time. This is a check of legacy content, not a security decision.
pub fn verify_checksum_md5(digest: &[u8], content: &[u8]) -> (valid: bool)
    ensures
        valid == (digest@ == md5_digest(content@)),
{
    let hash = md5_hash(content);
    constant_time_eq(hash.as_slice(), digest)
}

/// Trusted: `pbkdf2::pbkdf2` with `hmac::Hmac<sha2::Sha256>`. It overwrites
/// `out` with as many derived bytes as `out` is long; HMAC takes a secret of
/// any length, so it does not fail.
#[verifier::external_body]
fn pbkdf2_fill(secret: &[u8], salt: &[u8], rounds: u32, out: &mut Vec<u8>)
    ensures
        final(out)@ == pbkdf2_hmac_sha256(secret@, salt@, rounds, old(out)@.len()),
        final(out)@.len() == old(out)@.len(),
{
    pbkdf2::pbkdf2::<hmac::Hmac<sha2::Sha256>>(secret, salt, rounds, out.as_mut_slice())
        .expect("HMAC takes a key of any length");
}

/// What key derivation returns on each input: the bytes of the key, or a
/// crypto failure where the iteration count is beyond what PBKDF2 takes.
pub open spec fn spec_derive_key(secret: Seq<u8>, salt: Seq<u8>, iteration_count: nat) -> Result<
    Seq<u8>,
    Error,
> {
    if iteration_count > u32::MAX {
        Err(Error::Crypto)
    } else {
        Ok(pbkdf2_hmac_sha256(secret, salt, iteration_count as u32, 16))
    }
}

/// Derives a 16-byte key from `secret` and `salt` by PBKDF2 with
/// HMAC-SHA-256. The result depends on the three inputs alone, and the key
/// carries the given strength.
pub fn derive_key(
    secret: &[u8],
    key_strength: KeyStrength,
    salt: &[u8],
    iteration_count: usize,
) -> (result: Result<Key, Error>)
    ensures
        match result {
            Ok(key) => {
                &&& spec_derive_key(secret@, salt@, iteration_count as nat) == Ok::<Seq<u8>, Error>(
                    key@,
                )
                &&& key@.len() == 16
                &&& key.spec_strength() == key_strength
            },
            Err(e) => spec_derive_key(secret@, salt@, iteration_count as nat) == Err::<
                Seq<u8>,
                Error,
            >(e),
        },
{
    if iteration_count > u32::MAX as usize {
        return Err(Error::Crypto);
    }
    let mut key = Key::new(vec![0u8; BLOCK_LEN], key_strength);
    pbkdf2_fill(secret, salt, iteration_count as u32, key.as_mut_view());
    Ok(key)
}

/// Trusted: `Hkdf::<sha2::Sha256>::new` without salt, then `expand` with
/// empty info. It overwrites `okm` with as many derived bytes as `okm` is
/// long. More than 255 digests' worth, on which it fails, is left out.
#[verifier::external_body]
fn hkdf_sha256_fill(ikm: &[u8], okm: &mut Vec<u8>)
    requires
        old(okm)@.len() <= 255 * 32,
    ensures
        final(okm)@ == hkdf_sha256(ikm@, old(okm)@.len()),
        final(okm)@.len() == old(okm)@.len(),
{
    hkdf::Hkdf::<sha2::Sha256>::new(None, ikm)
        .expand(&[], okm.as_mut_slice())
        .expect("the output is short enough");
}

/// Expands `ikm` to a 16-byte AES key by HKDF with SHA-256, without salt and
/// with empty info.
pub fn hkdf_expand(ikm: &[u8]) -> (okm: Vec<u8>)
    ensures
        okm@ == hkdf_sha256(ikm@, 16),
        okm@.len() == 16,
{
    let mut okm: Vec<u8> = vec![0u8; KEY_LEN];
    hkdf_sha256_fill(ikm, &mut okm);
    okm
}

/// Trusted: `Digest::digest` of `sha2::Sha256`. It returns the digest of
/// `data`, 32 bytes long.
#[verifier::external_body]
fn sha256(data: &[u8]) -> (hash: Vec<u8>)
    ensures
        hash@ == sha256_digest(data@),
        hash@.len() == 32,
{
    sha2::Sha256::digest(data).to_vec()
}

/// SHA-256 applied `rounds` times in a row, and once where `rounds` is zero.
pub open spec fn iterated_sha256(data: Seq<u8>, rounds: nat) -> Seq<u8>
    decreases rounds,
{
    if rounds <= 1 {
        sha256_digest(data)
    } else {
        sha256_digest(iterated_sha256(data, (rounds - 1) as nat))
    }
}

/// Block `index` of the legacy derivation chain: the first is the iterated
/// digest of the secret followed by the salt, each later one the iterated
/// digest of the block before it.
pub open spec fn legacy_block(secret: Seq<u8>, salt: Seq<u8>, rounds: nat, index: nat) -> Seq<u8>
    decreases index,
{
    if index == 0 {
        iterated_sha256(secret + salt, rounds)
    } else {
        iterated_sha256(legacy_block(secret, salt, rounds, (index - 1) as nat), rounds)
    }
}

/// The first `len` bytes of the legacy derivation chain: the blocks of the
/// chain one after the other, each of them a SHA-256 digest of 32 bytes.
pub open spec fn legacy_material(secret: Seq<u8>, salt: Seq<u8>, rounds: nat, len: nat) -> Seq<u8> {
    Seq::new(len, |i: int| legacy_block(secret, salt, rounds, (i / 32) as nat)[i % 32])
}

/// SHA-256 applied `rounds` times in a row to `data`.
fn sha256_rounds(data: &[u8], rounds: usize) -> (hash: Vec<u8>)
    ensures
        hash@ == iterated_sha256(data@, rounds as nat),
        hash@.len() == 32,
{
    let mut hash = sha256(data);
    let mut done: usize = 1;
    while done < rounds
        invariant
            1 <= done,
            done <= rounds || (rounds == 0 && done == 1),
            hash@ == iterated_sha256(data@, done as nat),
            hash@.len() == 32,
        decreases rounds - done,
    {
        let next = sha256(hash.as_slice());
        wipe(&mut hash);
        hash = next;
        done = done + 1;
    }
    hash
}

/// The first `wanted` bytes of the legacy derivation chain.
pub fn legacy_derive_bytes(secret: &[u8], salt: &[u8], iteration_count: usize, wanted: usize) -> (buffer:
    Vec<u8>)
    ensures
        buffer@ == legacy_material(secret@, salt@, iteration_count as nat, wanted as nat),
        iterated_sha256(secret@ + salt@, iteration_count as nat).len() == 32,
{
    let ghost rounds = iteration_count as nat;
    let mut seed: Vec<u8> = Vec::new();
    seed.extend_from_slice(secret);
    seed.extend_from_slice(salt);
    assert(seed@ =~= secret@ + salt@);
    let mut block = sha256_rounds(seed.as_slice(), iteration_count);
    wipe(&mut seed);
    let mut buffer: Vec<u8> = Vec::with_capacity(wanted);
    let ghost mut index: nat = 0;
    loop
        invariant_except_break
            buffer@.len() == 32 * index,
            buffer@.len() < wanted || (wanted == 0 && index == 0),
        invariant
            rounds == iteration_count as nat,
            buffer@.len() <= wanted,
            block@ == legacy_block(secret@, salt@, rounds, index),
            block@.len() == 32,
            buffer@ == legacy_material(secret@, salt@, rounds, buffer@.len()),
        ensures
            buffer@.len() == wanted,
        decreases wanted - buffer@.len(),
    {
        let ghost before = buffer@;
        let missing = wanted - buffer.len();
        let to_read = if block.len() < missing {
            block.len()
        } else {
            missing
        };
        buffer.extend_from_slice(slice_subrange(block.as_slice(), 0, to_read));
        proof {
            assert forall|i: int| 0 <= i < buffer@.len() implies buffer@[i] == legacy_block(
                secret@,
                salt@,
                rounds,
                (i / 32) as nat,
            )[i % 32] by {
                if i < before.len() {
                    assert(buffer@[i] == before[i]);
                } else {
                    assert(i / 32 == index && i % 32 == i - 32 * index) by (nonlinear_arith)
                        requires
                            32 * index <= i < 32 * index + 32,
                    ;
                }
            }
            assert(buffer@ =~= legacy_material(secret@, salt@, rounds, buffer@.len()));
        }
        if buffer.len() == wanted {
            break ;
        }
        let next = sha256_rounds(block.as_slice(), iteration_count);
        wipe(&mut block);
        block = next;
        proof {
            index = index + 1;
        }
    }
    wipe(&mut block);
    buffer
}

/// Derives a key and an initialisation vector from `secret` and `salt` by
/// the legacy chain of iterated SHA-256 digests: the first 16 bytes of the
/// chain are the key, the next 16 the vector. One block of the chain holds
/// them all. The key carries the given strength.
pub fn legacy_derive_key_and_iv(
    secret: &[u8],
    key_strength: KeyStrength,
    salt: &[u8],
    iteration_count: usize,
) -> (result: Result<(Key, Vec<u8>), Error>)
    ensures
        result matches Ok((key, iv)) && {
            let material = legacy_material(secret@, salt@, iteration_count as nat, 32);
            &&& material == iterated_sha256(secret@ + salt@, iteration_count as nat)
            &&& key@ == material.take(16)
            &&& iv@ == material.skip(16)
            &&& key.spec_strength() == key_strength
        },
{
    let mut buffer = legacy_derive_bytes(secret, salt, iteration_count, KEY_LEN + IV_LEN);
    assert(buffer@ =~= iterated_sha256(secret@ + salt@, iteration_count as nat));
    let iv = buffer.split_off(KEY_LEN);
    Ok((Key::new(buffer, key_strength), iv))
}

} // verus!
