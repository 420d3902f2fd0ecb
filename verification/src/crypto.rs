//! The encryption envelope: payloads are sealed to the persisted RSA public
//! key (PKCS#1 v1.5) and unsealed with the armored, passphrase-locked secret
//! key. Unlocked key material lives only inside the single call that uses it.

use vstd::prelude::*;

use crate::{Error, ErrorKind};
use pgp::composed::Deserializable;
use pgp::types::SecretKeyTrait;
use rsa::pkcs1::DecodeRsaPublicKey;

verus! {

/// What unsealing returns for a given armored secret key, passphrase and
/// ciphertext: the decrypted payload, or nothing when the key does not parse,
/// the passphrase is wrong, the ciphertext or its padding is damaged, or the
/// plaintext is not UTF-8. The outcome is a function of the three arguments
/// alone.
pub uninterp spec fn unseal_of(
    private_key: Seq<char>,
    passphrase: Seq<char>,
    ciphertext: Seq<u8>,
) -> Option<Seq<char>>;

/// Whether sealing a payload to a PEM-encoded RSA public key succeeds: it
/// does exactly when the PEM parses as an RSA public key and the payload
/// fits under the PKCS#1 v1.5 bound (the modulus size minus eleven bytes).
/// Success is a function of the key and the payload alone; the randomness
/// only picks the padding bytes.
pub uninterp spec fn seal_accepts(rsa_pub_key: Seq<char>, payload: Seq<char>) -> bool;

/// Whether an armored secret key and a passphrase unlock the private half
/// of the PEM-encoded RSA public key: the key parses, the passphrase opens
/// it, and its RSA key pairs with the public one.
pub uninterp spec fn keypair_matches(
    private_key: Seq<char>,
    passphrase: Seq<char>,
    rsa_pub_key: Seq<char>,
) -> bool;

/// Relies on rsa::RsaPublicKey::from_pkcs1_pem and rsa::RsaPublicKey::encrypt
/// with PKCS#1 v1.5 padding: seals the payload to the PEM-encoded public key.
/// Success is deterministic in the key and the payload (`None` comes exactly
/// from a PEM that does not parse or a payload over the padding bound); the
/// randomness only picks padding bytes, so every ciphertext that comes back
/// decrypts, under the matching private key, to exactly the payload.
#[verifier::external_body]
fn rsa_seal(rsa_pub_pem: &str, payload: &str) -> (r: Option<Vec<u8>>)
    ensures
        r is Some <==> seal_accepts(rsa_pub_pem@, payload@),
        r matches Some(ct) ==> forall|sk: Seq<char>, pw: Seq<char>|
            keypair_matches(sk, pw, rsa_pub_pem@) ==> unseal_of(sk, pw, ct@) == Some(payload@),
{
    let key = match rsa::RsaPublicKey::from_pkcs1_pem(rsa_pub_pem) {
        Ok(k) => k,
        Err(_) => return None,
    };
    let mut rng = rand::thread_rng();
    key.encrypt(&mut rng, rsa::Pkcs1v15Encrypt, payload.as_bytes()).ok()
}

/// Relies on pgp::composed::SignedSecretKey::from_string (armored parse),
/// pgp::types::SecretKeyTrait::unlock (passphrase-gated key unlocking) and
/// rsa::RsaPrivateKey::decrypt with PKCS#1 v1.5 padding: unseals ciphertext
/// with the armored secret key. Every step is deterministic in the three
/// arguments, and every failure (parse, wrong passphrase, padding mismatch,
/// non-UTF-8 plaintext) yields `None` rather than damaged output.
#[verifier::external_body]
fn rsa_unseal(private_key: &str, passphrase: &str, ciphertext: &Vec<u8>) -> (r: Option<String>)
    ensures
        r matches Some(s) ==> unseal_of(private_key@, passphrase@, ciphertext@) == Some(s@),
        r is None ==> unseal_of(private_key@, passphrase@, ciphertext@) is None,
{
    let key = match pgp::composed::SignedSecretKey::from_string(private_key) {
        Ok((k, _)) => k,
        Err(_) => return None,
    };
    let take_rsa = |repr: &pgp::types::SecretKeyRepr| match repr {
        pgp::types::SecretKeyRepr::RSA(k) => Ok((**k).clone()),
        _ => Err(pgp::errors::Error::Message("not an RSA key".to_owned())),
    };
    let rsa_key: rsa::RsaPrivateKey = match key.unlock(|| passphrase.to_owned(), take_rsa) {
        Ok(k) => k,
        Err(_) => return None,
    };
    let plain = rsa_key.decrypt(rsa::Pkcs1v15Encrypt, ciphertext.as_slice()).ok();
    plain.and_then(|p| String::from_utf8(p).ok())
}

/// Seals a plaintext payload to the PEM-encoded RSA public key. Succeeds
/// exactly when the key accepts the payload; the ciphertext bytes are
/// randomized, but whatever comes back unseals, under any secret key and
/// passphrase matching the public key, to exactly the payload.
pub fn encrypt(payload: &str, rsa_pub_key: &str) -> (r: Result<Vec<u8>, Error>)
    ensures
        r is Ok <==> seal_accepts(rsa_pub_key@, payload@),
        r matches Ok(ct) ==> forall|sk: Seq<char>, pw: Seq<char>|
            keypair_matches(sk, pw, rsa_pub_key@) ==> unseal_of(sk, pw, ct@) == Some(payload@),
        r matches Err(e) ==> e.kind == ErrorKind::EncryptionError,
{
    match rsa_seal(rsa_pub_key, payload) {
        Some(ct) => Ok(ct),
        None => Err(
            Error::new(ErrorKind::EncryptionError, "failed to encrypt credential data"),
        ),
    }
}

/// Unseals a ciphertext with the armored secret key, unlocked by the
/// passphrase. Returns the payload exactly when the envelope unseals; a wrong
/// passphrase or damaged ciphertext fails with `DecryptionError` and never
/// yields damaged output as if valid.
pub fn decrypt(ciphertext: &Vec<u8>, passphrase: &str, private_key: &str) -> (r: Result<
    String,
    Error,
>)
    ensures
        match unseal_of(private_key@, passphrase@, ciphertext@) {
            Some(p) => r matches Ok(s) && s@ == p,
            None => r matches Err(e) && e.kind == ErrorKind::DecryptionError,
        },
{
    match rsa_unseal(private_key, passphrase, ciphertext) {
        Some(p) => Ok(p),
        None => Err(
            Error::new(
                ErrorKind::DecryptionError,
                "failed to decrypt credential data: wrong passphrase or damaged ciphertext",
            ),
        ),
    }
}

} // verus!
