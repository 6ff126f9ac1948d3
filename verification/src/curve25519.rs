use vstd::prelude::*;

use crypto::aead::{AeadDecryptor, AeadEncryptor};
use crypto::chacha20poly1305::ChaCha20Poly1305;

verus! {

/// Why a message could not be encrypted.
#[derive(Debug, Clone, Copy, PartialEq, Eq, Structural)]
pub enum EncryptError {
    /// The system's source of randomness gave no key.
    RngInitializationFailed,
}

/// Why a message could not be decrypted.
#[derive(Debug, Clone, Copy, PartialEq, Eq, Structural)]
pub enum DecryptError {
    /// The message is too short to hold a public key and a tag.
    Malformed,
    /// The tag does not match: the message was not sealed for this key, or was changed.
    Invalid,
}

/// What `crypto::curve25519::curve25519` returns for a scalar and a point.
pub uninterp spec fn x25519(scalar: Seq<u8>, point: Seq<u8>) -> Seq<u8>;

/// What `crypto::curve25519::curve25519_base` returns for a scalar.
pub uninterp spec fn x25519_base(scalar: Seq<u8>) -> Seq<u8>;

/// The ciphertext and the tag that ChaCha20-Poly1305 makes of `message`.
pub uninterp spec fn aead_seal(key: Seq<u8>, nonce: Seq<u8>, aad: Seq<u8>, message: Seq<u8>) -> (Seq<u8>, Seq<u8>);

/// What ChaCha20-Poly1305 makes of a ciphertext and a tag: the plaintext, or
/// `None` when the tag does not match.
pub uninterp spec fn aead_open(key: Seq<u8>, nonce: Seq<u8>, aad: Seq<u8>, ciphertext: Seq<u8>, tag: Seq<u8>) -> Option<Seq<u8>>;

/// `crypto::curve25519::curve25519(n, p)`: the shared point of scalar `n` and point
/// `p`. Claimed: the result is `x25519` of the two, and it has 32 bytes (its
/// type). The function reads the first 32 bytes of `p`, so `p` must have them.
#[verifier::external_body]
fn scalar_mult(n: &[u8], p: &[u8]) -> (result: [u8; 32])
    requires
        p@.len() >= 32,
    ensures
        result@ == x25519(n@, p@),
{
    crypto::curve25519::curve25519(n, p)
}

/// `crypto::curve25519::curve25519_base(x)`: the public key of scalar `x`.
/// Claimed: the result is `x25519_base` of `x`.
#[verifier::external_body]
fn base_mult(x: &[u8]) -> (result: [u8; 32])
    ensures
        result@ == x25519_base(x@),
{
    crypto::curve25519::curve25519_base(x)
}

/// `ChaCha20Poly1305::new(key, nonce, aad)` followed by one `encrypt` of `message`
/// (the cipher object is used once, as the library does). Claimed: the ciphertext
/// and the tag are `aead_seal` of the arguments, the ciphertext has the message's
/// length and the tag 16 bytes; and the ciphertext determines the message (the
/// cipher adds a key stream to it). `new` asserts a key of 16 or 32 bytes and a
/// nonce of 8, and the cipher panics when its block counter runs out, which
/// `max_sealed_len` keeps the message below.
#[verifier::external_body]
fn seal(key: &[u8], nonce: &[u8], aad: &[u8], message: &[u8]) -> (result: (Vec<u8>, [u8; 16]))
    requires
        key@.len() == 16 || key@.len() == 32,
        nonce@.len() == 8,
        message@.len() <= max_sealed_len(),
    ensures
        (result.0@, result.1@) == aead_seal(key@, nonce@, aad@, message@),
        result.0@.len() == message@.len(),
        forall|m: Seq<u8>| #[trigger] aead_seal(key@, nonce@, aad@, m).0 == result.0@ ==> m == message@,
{
    let mut cipher = ChaCha20Poly1305::new(key, nonce, aad);
    let mut output = vec![0u8; message.len()];
    let mut tag = [0u8; 16];
    cipher.encrypt(message, &mut output[..], &mut tag[..]);
    (output, tag)
}

/// `ChaCha20Poly1305::new(key, nonce, aad)` followed by one `decrypt` of
/// `ciphertext` against `tag`. Claimed: the result is `aead_open` of the
/// arguments; a plaintext has the ciphertext's length; and a ciphertext and tag
/// that `aead_seal` made of a message with the same key, nonce and data open to
/// that message (decryption checks the tag that encryption computed and takes
/// the key stream off again). `new` asserts a key of 16 or 32 bytes and a nonce
/// of 8, and the cipher panics when its block counter runs out, which
/// `max_sealed_len` keeps the ciphertext below.
#[verifier::external_body]
fn open(key: &[u8], nonce: &[u8], aad: &[u8], ciphertext: &[u8], tag: &[u8]) -> (result: Option<Vec<u8>>)
    requires
        key@.len() == 16 || key@.len() == 32,
        nonce@.len() == 8,
        ciphertext@.len() <= max_sealed_len(),
    ensures
        result is None ==> aead_open(key@, nonce@, aad@, ciphertext@, tag@) is None,
        result is Some ==> aead_open(key@, nonce@, aad@, ciphertext@, tag@) == Some(result->0@),
        result is Some ==> result->0@.len() == ciphertext@.len(),
        forall|m: Seq<u8>| #[trigger] aead_seal(key@, nonce@, aad@, m) == (ciphertext@, tag@) ==> result is Some && result->0@ == m,
{
    let mut cipher = ChaCha20Poly1305::new(key, nonce, aad);
    let mut plaintext = vec![0u8; ciphertext.len()];
    if cipher.decrypt(ciphertext, &mut plaintext[..], tag) {
        Some(plaintext)
    } else {
        None
    }
}

/// The longest message ChaCha20-Poly1305 seals or opens here: its 32-bit block
/// counter spends block 0 on the authentication key and runs out at block
/// `2^32 - 1`, so a message may take blocks 1 to `2^32 - 2` of 64 bytes.
pub open spec fn max_sealed_len() -> int {
    274_877_906_816
}

/// The nonce of every sealed message: eight zero bytes.
pub open spec fn zero_nonce() -> Seq<u8> {
    seq![0u8, 0u8, 0u8, 0u8, 0u8, 0u8, 0u8, 0u8]
}

/// The symmetric key shared by the holder of `secret` and the owner of `point`.
pub open spec fn shared_key(secret: Seq<u8>, point: Seq<u8>) -> Seq<u8> {
    x25519(secret, point)
}

/// A sealed message: the sender's one-time public key, the tag, the ciphertext.
pub open spec fn sealed_message(ephemeral_secret: Seq<u8>, public_key: Seq<u8>, message: Seq<u8>) -> Seq<u8> {
    let s = aead_seal(shared_key(ephemeral_secret, public_key), zero_nonce(), Seq::empty(), message);
    x25519_base(ephemeral_secret) + s.1 + s.0
}

/// What decrypting `message` with `secret_key` gives.
pub open spec fn opened_message(secret_key: Seq<u8>, message: Seq<u8>) -> Result<Seq<u8>, DecryptError> {
    if message.len() < 48 {
        Err(DecryptError::Malformed)
    } else {
        let key = shared_key(secret_key, message.subrange(0, 32));
        match aead_open(key, zero_nonce(), Seq::empty(), message.subrange(48, message.len() as int), message.subrange(32, 48)) {
            Some(p) => Ok(p),
            None => Err(DecryptError::Invalid),
        }
    }
}

fn append_bytes(out: &mut Vec<u8>, bytes: &[u8])
    ensures
        final(out)@ == old(out)@ + bytes@,
{
    let n = bytes.len();
    for i in 0..n
        invariant
            n == bytes@.len(),
            out@ == old(out)@ + bytes@.take(i as int),
    {
        out.push(bytes[i]);
        assert(bytes@.take(i + 1) =~= bytes@.take(i as int).push(bytes@[i as int]));
        assert(out@ =~= old(out)@ + bytes@.take(i + 1));
    }
    assert(bytes@.take(n as int) =~= bytes@);
}

/// Seals `message` for the owner of `public_key` with the one-time secret
/// `ephemeral_secret_key`: the one-time public key, then the tag, then the
/// ciphertext under the shared key.
pub fn encrypt_with_key(public_key: &[u8; 32], ephemeral_secret_key: &[u8; 32], message: &[u8]) -> (result: Vec<u8>)
    requires
        message@.len() <= max_sealed_len(),
    ensures
        result@ == sealed_message(ephemeral_secret_key@, public_key@, message@),
        result@.len() == 48 + message@.len(),
        x25519_base(ephemeral_secret_key@).len() == 32,
        aead_seal(shared_key(ephemeral_secret_key@, public_key@), zero_nonce(), Seq::empty(), message@).1.len() == 16,
{
    let ephemeral_public_key = base_mult(ephemeral_secret_key.as_slice());
    let symmetric_key = scalar_mult(ephemeral_secret_key.as_slice(), public_key.as_slice());
    let nonce: [u8; 8] = [0, 0, 0, 0, 0, 0, 0, 0];
    let aad: [u8; 0] = [];
    proof {
        assert(nonce@ =~= zero_nonce());
        assert(aad@ =~= Seq::<u8>::empty());
    }
    let sealed = seal(symmetric_key.as_slice(), nonce.as_slice(), aad.as_slice(), message);
    let mut output: Vec<u8> = Vec::new();
    append_bytes(&mut output, ephemeral_public_key.as_slice());
    append_bytes(&mut output, sealed.1.as_slice());
    append_bytes(&mut output, sealed.0.as_slice());
    output
}

/// Seals `message` for the owner of `public_key` with a fresh one-time key (see
/// `encrypt_with_key`); fails where the system gives no randomness.
pub fn encrypt(public_key: &[u8; 32], message: &[u8]) -> (result: Result<Vec<u8>, EncryptError>)
    requires
        message@.len() <= max_sealed_len(),
    ensures
        match result {
            Ok(out) => out@.len() == 48 + message@.len() && exists|e: Seq<u8>|
                e.len() == 32 && #[trigger] sealed_message(e, public_key@, message@) == out@,
            Err(err) => err == EncryptError::RngInitializationFailed,
        },
{
    match crate::entropy::os_random_bytes() {
        None => Err(EncryptError::RngInitializationFailed),
        Some(ephemeral_secret_key) => {
            let out = encrypt_with_key(public_key, &ephemeral_secret_key, message);
            assert(sealed_message(ephemeral_secret_key@, public_key@, message@) == out@);
            Ok(out)
        },
    }
}

/// Opens a sealed message with `secret_key`: `Malformed` when it is shorter than a
/// public key and a tag, `Invalid` when the tag does not match. A message that
/// `encrypt_with_key` sealed for a key whose shared key with the sender's one-time
/// key is the same from both sides opens to the message that was sealed.
pub fn decrypt(secret_key: &[u8; 32], message: &[u8]) -> (result: Result<Vec<u8>, DecryptError>)
    requires
        message@.len() <= 48 + max_sealed_len(),
    ensures
        match result {
            Ok(p) => opened_message(secret_key@, message@) == Ok::<Seq<u8>, DecryptError>(p@),
            Err(e) => opened_message(secret_key@, message@) == Err::<Seq<u8>, DecryptError>(e),
        },
        forall|e: Seq<u8>, public_key: Seq<u8>, m: Seq<u8>|
            #![trigger sealed_message(e, public_key, m)]
            message@ == sealed_message(e, public_key, m) && shared_key(secret_key@, x25519_base(e))
                == shared_key(e, public_key) && x25519_base(e).len() == 32 && aead_seal(
                shared_key(e, public_key),
                zero_nonce(),
                Seq::empty(),
                m,
            ).1.len() == 16 ==> (result matches Ok(p) && p@ == m),
{
    if message.len() < 48 {
        return Err(DecryptError::Malformed);
    }
    let ephemeral_public_key = &message[0..32];
    let tag = &message[32..48];
    let ciphertext = &message[48..message.len()];
    let symmetric_key = scalar_mult(secret_key.as_slice(), ephemeral_public_key);
    let nonce: [u8; 8] = [0, 0, 0, 0, 0, 0, 0, 0];
    let aad: [u8; 0] = [];
    proof {
        assert(nonce@ =~= zero_nonce());
        assert(aad@ =~= Seq::<u8>::empty());
    }
    let result = match open(symmetric_key.as_slice(), nonce.as_slice(), aad.as_slice(), ciphertext, tag) {
        Some(plaintext) => Ok(plaintext),
        None => Err(DecryptError::Invalid),
    };
    proof {
        assert forall|e: Seq<u8>, public_key: Seq<u8>, m: Seq<u8>|
            message@ == #[trigger] sealed_message(e, public_key, m) && shared_key(secret_key@, x25519_base(e))
                == shared_key(e, public_key) && x25519_base(e).len() == 32 && aead_seal(
                shared_key(e, public_key),
                zero_nonce(),
                Seq::empty(),
                m,
            ).1.len() == 16 implies (result matches Ok(p) && p@ == m) by {
            let s = aead_seal(shared_key(e, public_key), zero_nonce(), Seq::empty(), m);
            assert(message@.subrange(0, 32) =~= x25519_base(e));
            assert(message@.subrange(32, 48) =~= s.1);
            assert(message@.subrange(48, message@.len() as int) =~= s.0);
        }
    }
    result
}

} // verus!
