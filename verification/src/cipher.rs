//! Confidentiality of the serialized vault: a passphrase-derived key,
//! AES-256 in cipher-block-chaining mode with PKCS#7 padding, and a fresh
//! random 16-byte IV for every encryption.
//!
//! The stored blob is `IV (16 bytes) || ciphertext`. Only the raw block
//! cipher is trusted, and only on whole blocks ([`aes_raw_encrypt`],
//! [`aes_raw_decrypt`], running the outside engine with no padding of its
//! own); the PKCS#7 padding is added and — crucially — validated and
//! stripped by verified code here, so a corrupt or crafted blob whose
//! padding is malformed is a [`VaultError::Decryption`] value, never a
//! crash. What the cipher computes is only named ([`aes_cbc_encryption`],
//! [`aes_cbc_block_decryption`], [`sha256_of`]); the round trip — any blob
//! [`encrypt_data`] produced decrypts back to the plaintext it was given —
//! is stated on [`decrypt_data`] over those names and proved for the whole
//! pipeline around them.

use vstd::prelude::*;

use crate::errors::VaultError;
use crypto::buffer::{ReadBuffer, WriteBuffer};
use rand::Rng;
use sha2::Digest;

verus! {

/// Length in bytes of the random IV prepended to every blob, which is also
/// the cipher's block size.
pub const IV_SIZE: usize = 16;

/// Length in bytes of the passphrase-derived key.
pub const KEY_SIZE: usize = 32;

/// The SHA-256 digest (32 bytes) of the UTF-8 bytes of a character
/// sequence. Named, not defined: the compression function is run by the
/// outside implementation.
pub uninterp spec fn sha256_of(s: Seq<char>) -> Seq<u8>;

/// The AES-256-CBC ciphertext of a whole-block plaintext (no padding of
/// any kind) under a 32-byte key and a 16-byte IV. Named, not defined:
/// only the outside implementation runs the block cipher.
pub uninterp spec fn aes_cbc_encryption(plain: Seq<u8>, key: Seq<u8>, iv: Seq<u8>) -> Seq<u8>;

/// The raw AES-256-CBC decryption of a whole-block buffer under a 32-byte
/// key and a 16-byte IV: the same number of bytes back, no padding
/// interpreted. Named, not defined, like [`aes_cbc_encryption`]; that the
/// one inverts the other is stated where the encryptor is called.
pub uninterp spec fn aes_cbc_block_decryption(data: Seq<u8>, key: Seq<u8>, iv: Seq<u8>) -> Seq<u8>;

/// A byte sequence with its PKCS#7 padding appended: `n` copies of the
/// byte `n`, where `n` is 1..=16 and fills the last block.
pub open spec fn pkcs_padded(b: Seq<u8>) -> Seq<u8> {
    let n = 16 - b.len() % 16;
    b + Seq::new(n as nat, |i: int| n as u8)
}

/// Validated PKCS#7 padding removal: the last byte names the padding
/// length `n` (1..=16), all `n` trailing bytes must equal it, and the
/// input must be a non-zero number of whole blocks; anything else is
/// malformed and yields `None`.
pub open spec fn pkcs_unpad(b: Seq<u8>) -> Option<Seq<u8>> {
    if b.len() > 0 && b.len() % 16 == 0 {
        let n = b[b.len() - 1] as int;
        if 1 <= n <= 16 && (forall|i: int| b.len() - n <= i < b.len() ==> b[i] == n as u8) {
            Some(b.take(b.len() - n))
        } else {
            None
        }
    } else {
        None
    }
}

/// The bytes a stored blob decrypts to under a passphrase, after the
/// padding is validated and stripped: `None` when the blob is too short
/// for an IV, not whole blocks, or its decrypted padding is malformed.
pub open spec fn unsealed_bytes(blob: Seq<u8>, passphrase: Seq<char>) -> Option<Seq<u8>> {
    if blob.len() >= IV_SIZE && (blob.len() - IV_SIZE) % 16 == 0 {
        pkcs_unpad(
            aes_cbc_block_decryption(
                blob.skip(IV_SIZE as int),
                sha256_of(passphrase),
                blob.take(IV_SIZE as int),
            ),
        )
    } else {
        None
    }
}

/// The text a stored blob decrypts to under a passphrase: the unsealed
/// bytes read back as UTF-8, `None` when decryption or the read-back
/// fails.
pub open spec fn unsealed_text(blob: Seq<u8>, passphrase: Seq<char>) -> Option<Seq<char>> {
    match unsealed_bytes(blob, passphrase) {
        Some(b) => if vstd::utf8::valid_utf8(b) {
            Some(vstd::utf8::decode_utf8(b))
        } else {
            None
        },
        None => None,
    }
}

/// `blob` decrypts to exactly the plaintext `plain` under the key derived
/// from `passphrase`. Every output of [`encrypt_data`] stands in this
/// relation to its input, and [`decrypt_data`] recovers the plaintext from
/// any blob that does.
pub open spec fn encrypts_to(blob: Seq<u8>, plain: Seq<char>, passphrase: Seq<char>) -> bool {
    unsealed_text(blob, passphrase) == Some(plain)
}

/// Stripping the padding that [`pkcs_padded`] appended gives back the
/// original bytes.
pub proof fn lemma_pkcs_roundtrip(b: Seq<u8>)
    ensures
        pkcs_unpad(pkcs_padded(b)) == Some(b),
{
    let n = 16 - b.len() % 16;
    let p = pkcs_padded(b);
    assert(p.len() == b.len() + n);
    assert(p.len() % 16 == 0);
    assert(p[p.len() - 1] == n as u8);
    assert(forall|i: int| p.len() - n <= i < p.len() ==> p[i] == n as u8);
    assert(p.take(p.len() - n) =~= b);
}

/// Relies on sha2::Sha256 (the Digest::digest convenience function): the
/// 32-byte SHA-256 digest of the input's UTF-8 bytes, a function of the
/// input characters alone.
#[verifier::external_body]
pub(crate) fn form_secret_key(input: &str) -> (r: Vec<u8>)
    ensures
        r@ == sha256_of(input@),
        r@.len() == KEY_SIZE,
{
    sha2::Sha256::digest(input.as_bytes()).to_vec()
}

/// Relies on rand's thread-local generator (rand::rng, Rng::fill_bytes):
/// 16 bytes drawn from the process's cryptographically secure source.
/// Nothing is promised of their values. If that source is exhausted the
/// generator itself panics, the one fatal condition of this crate: going on
/// would risk reusing an IV.
#[verifier::external_body]
pub(crate) fn create_iv() -> (r: Vec<u8>)
    ensures
        r@.len() == IV_SIZE,
{
    let mut iv = vec![0u8; IV_SIZE];
    rand::rng().fill_bytes(iv.as_mut_slice());
    iv
}

/// Relies on crypto::aes::cbc_encryptor with NoPadding, on a whole-block
/// input: the engine's padding hooks are no-ops and its error states are
/// unreachable (the input always fills its last block), so the loop runs
/// to completion and the `expect` never fires. The ciphertext is a
/// function of (data, key, iv) alone, block for block — the same length as
/// the input — and the matching block decryptor recovers exactly the input
/// bytes, the defining property of the mode.
#[verifier::external_body]
fn aes_raw_encrypt(data: &[u8], key: &[u8], iv: &[u8]) -> (r: Vec<u8>)
    requires
        key@.len() == KEY_SIZE,
        iv@.len() == IV_SIZE,
        data@.len() % 16 == 0,
    ensures
        r@ == aes_cbc_encryption(data@, key@, iv@),
        r@.len() == data@.len(),
        aes_cbc_block_decryption(r@, key@, iv@) == data@,
{
    let mut enc = crypto::aes::cbc_encryptor(crypto::aes::KeySize::KeySize256, key, iv, crypto::blockmodes::NoPadding);
    let mut out: Vec<u8> = Vec::new();
    let mut rb = crypto::buffer::RefReadBuffer::new(data);
    let mut buf = [0u8; 4096];
    let mut wb = crypto::buffer::RefWriteBuffer::new(&mut buf);
    loop {
        let res = enc.encrypt(&mut rb, &mut wb, true).expect("cipher failure");
        out.extend(wb.take_read_buffer().take_remaining().iter().copied());
        if let crypto::buffer::BufferResult::BufferUnderflow = res {
            return out;
        }
    }
}

/// Relies on crypto::aes::cbc_decryptor with NoPadding: the padding hooks
/// are no-ops (nothing is interpreted, nothing can underflow), so the only
/// failure is an input that is not whole blocks, reported by the engine as
/// an error and mapped to `Decryption`. On whole blocks the result is the
/// raw block decryption, as many bytes as came in.
#[verifier::external_body]
fn aes_raw_decrypt(data: &[u8], key: &[u8], iv: &[u8]) -> (r: Result<Vec<u8>, VaultError>)
    requires
        key@.len() == KEY_SIZE,
        iv@.len() == IV_SIZE,
    ensures
        match r {
            Ok(b) => data@.len() % 16 == 0 && b@ == aes_cbc_block_decryption(data@, key@, iv@)
                && b@.len() == data@.len(),
            Err(e) => data@.len() % 16 != 0 && e == VaultError::Decryption,
        },
{
    let mut dec = crypto::aes::cbc_decryptor(crypto::aes::KeySize::KeySize256, key, iv, crypto::blockmodes::NoPadding);
    let mut out: Vec<u8> = Vec::new();
    let mut rb = crypto::buffer::RefReadBuffer::new(data);
    let mut buf = [0u8; 4096];
    let mut wb = crypto::buffer::RefWriteBuffer::new(&mut buf);
    loop {
        let res = match dec.decrypt(&mut rb, &mut wb, true) {
            Ok(res) => res,
            Err(_) => { return Err(VaultError::Decryption) },
        };
        out.extend(wb.take_read_buffer().take_remaining().iter().copied());
        if let crypto::buffer::BufferResult::BufferUnderflow = res {
            return Ok(out);
        }
    }
}

/// Relies on String::from_utf8: succeeds exactly on valid UTF-8, and the
/// returned string's bytes are the input bytes. A failure is mapped to
/// `Decryption`: the bytes came out of the cipher, so they are not text of
/// ours.
#[verifier::external_body]
fn bytes_to_text(b: Vec<u8>) -> (r: Result<String, VaultError>)
    ensures
        match r {
            Ok(s) => vstd::utf8::valid_utf8(b@) && vstd::utf8::encode_utf8(s@) == b@,
            Err(e) => !vstd::utf8::valid_utf8(b@) && e == VaultError::Decryption,
        },
{
    String::from_utf8(b).map_err(|_| VaultError::Decryption)
}

/// Append a PKCS#7 padding block or tail to `data`: `n` copies of the byte
/// `n`, with `n` in 1..=16 chosen to fill the last block.
fn pkcs_pad(data: &[u8]) -> (r: Vec<u8>)
    ensures
        r@ == pkcs_padded(data@),
        r@.len() % 16 == 0,
        r@.len() == data@.len() + (16 - data@.len() % 16),
{
    let n: usize = 16 - data.len() % 16;
    let mut out = vstd::slice::slice_to_vec(data);
    let mut i: usize = 0;
    while i < n
        invariant
            1 <= n <= 16,
            n == 16 - data@.len() % 16,
            i <= n,
            out@ == data@ + Seq::new(i as nat, |j: int| n as u8),
        decreases n - i,
    {
        out.push(n as u8);
        proof {
            assert(out@ =~= data@ + Seq::new((i + 1) as nat, |j: int| n as u8));
        }
        i = i + 1;
    }
    proof {
        assert(out@ == pkcs_padded(data@));
        assert(out@.len() == data@.len() + n);
        assert(out@.len() % 16 == 0);
    }
    out
}

/// Validate and strip PKCS#7 padding, exactly as [`pkcs_unpad`] reads it:
/// a malformed tail — wrong length byte, inconsistent padding bytes, or an
/// input that is not a non-zero number of whole blocks — is refused as
/// `Decryption`, never interpreted.
fn pkcs_strip(data: &Vec<u8>) -> (r: Result<Vec<u8>, VaultError>)
    ensures
        match r {
            Ok(b) => pkcs_unpad(data@) == Some(b@),
            Err(e) => pkcs_unpad(data@) is None && e == VaultError::Decryption,
        },
{
    let len = data.len();
    if len == 0 || len % 16 != 0 {
        return Err(VaultError::Decryption);
    }
    let last = data[len - 1];
    if last < 1 || last > 16 {
        return Err(VaultError::Decryption);
    }
    let n = last as usize;
    let mut i: usize = len - n;
    while i < len
        invariant
            n == data@[data@.len() - 1] as int,
            last == data@[data@.len() - 1],
            last as int == n,
            1 <= n <= 16,
            16 <= len == data@.len(),
            len - n <= i <= len,
            forall|k: int| len - n <= k < i ==> data@[k] == n as u8,
        decreases len - i,
    {
        if data[i] != last {
            proof {
                assert(data@[i as int] != n as u8);
                assert(!(forall|k: int|
                    data@.len() - n <= k < data@.len() ==> data@[k] == n as u8)) by {
                    assert(data@[i as int] != n as u8);
                }
            }
            return Err(VaultError::Decryption);
        }
        proof {
            assert(data@[i as int] == n as u8);
        }
        i = i + 1;
    }
    let kept = vstd::slice::slice_subrange(data.as_slice(), 0, len - n);
    let out = vstd::slice::slice_to_vec(kept);
    proof {
        assert(out@ =~= data@.take(data@.len() - n));
    }
    Ok(out)
}

/// Encrypt `data` under the key derived from the passphrase `key`: a fresh
/// random 16-byte IV, followed by the AES-256-CBC ciphertext of the PKCS#7
/// padded UTF-8 bytes of `data`. Every call draws a new IV, so two
/// encryptions of the same plaintext are distinct blobs unless the random
/// source repeats itself. The blob's length is fixed by the plaintext's
/// byte length: the IV plus one block per started block plus one.
pub fn encrypt_data(data: &str, key: &str) -> (r: Vec<u8>)
    ensures
        encrypts_to(r@, data@, key@),
        r@.len() == IV_SIZE + (vstd::utf8::encode_utf8(data@).len() / 16 + 1) * 16,
{
    let k = form_secret_key(key);
    let iv = create_iv();
    let ghost iv0 = iv@;
    let tb = data.as_bytes();
    proof {
        assert(tb@ == vstd::utf8::encode_utf8(data@));
    }
    let padded = pkcs_pad(tb);
    let mut ct = aes_raw_encrypt(padded.as_slice(), k.as_slice(), iv.as_slice());
    let ghost ct0 = ct@;
    let mut blob = iv;
    blob.append(&mut ct);
    proof {
        assert(blob@.take(IV_SIZE as int) =~= iv0);
        assert(blob@.skip(IV_SIZE as int) =~= ct0);
        lemma_pkcs_roundtrip(tb@);
        vstd::utf8::encode_utf8_valid_utf8(data@);
        vstd::utf8::encode_utf8_decode_utf8(data@);
        assert(unsealed_bytes(blob@, key@) == Some(tb@));
        assert(encrypts_to(blob@, data@, key@));
    }
    blob
}

/// Decrypt a stored blob with the key derived from the passphrase `key`.
/// The first 16 bytes are taken as the IV, the rest as the ciphertext; the
/// ciphertext is block-decrypted, the PKCS#7 padding validated and
/// stripped by verified code, and the bytes read back as UTF-8.
///
/// Round trip: a blob that [`encrypt_data`] produced for some plaintext
/// under the same passphrase yields exactly that plaintext. Every blob
/// that decrypts to nothing — too short for an IV, not whole blocks,
/// malformed padding (in practice: a wrong passphrase or a damaged file),
/// or bytes that are not UTF-8 — yields `Decryption`, a value, never a
/// panic.
pub fn decrypt_data(data: &[u8], key: &str) -> (r: Result<String, VaultError>)
    ensures
        match r {
            Ok(s) => unsealed_text(data@, key@) == Some(s@),
            Err(e) => unsealed_text(data@, key@) is None && e == VaultError::Decryption,
        },
        forall|p: Seq<char>| encrypts_to(data@, p, key@) ==> (r matches Ok(s) && s@ == p),
        data@.len() < IV_SIZE ==> r is Err,
{
    if data.len() < IV_SIZE {
        return Err(VaultError::Decryption);
    }
    let k = form_secret_key(key);
    let iv = vstd::slice::slice_subrange(data, 0, IV_SIZE);
    let ct = vstd::slice::slice_subrange(data, IV_SIZE, data.len());
    proof {
        assert(iv@ =~= data@.take(IV_SIZE as int));
        assert(ct@ =~= data@.skip(IV_SIZE as int));
    }
    let raw = match aes_raw_decrypt(ct, k.as_slice(), iv) {
        Ok(b) => b,
        Err(e) => {
            return Err(e);
        },
    };
    let stripped = match pkcs_strip(&raw) {
        Ok(b) => b,
        Err(e) => {
            return Err(e);
        },
    };
    let ghost sb = stripped@;
    match bytes_to_text(stripped) {
        Ok(s) => {
            proof {
                vstd::utf8::encode_utf8_decode_utf8(s@);
                assert(unsealed_text(data@, key@) == Some(s@));
            }
            Ok(s)
        },
        Err(e) => Err(e),
    }
}

} // verus!
