//! Signing and verification over the injected primitives.
//!
//! The signature math itself is an external collaborator; what stands here
//! is everything around it: choosing the verification algorithm from a
//! resolved key, unwrapping a private key's armor, and turning a
//! DER-encoded ECDSA signature into the envelope's fixed 64-byte layout
//! (two 32-byte big-endian integers, zero-padded, r then s).

use vstd::prelude::*;
use vstd::slice::slice_to_vec;
use vstd::string::StringExecFns;

use crate::cli::GCloudParams;
use crate::cli::SignatureOp;
use crate::envelope::Verifier;
use crate::keys::PublicKey;
use crate::keys::PublicKeyKind;
use crate::keys::SpecTlv;
use crate::keys::parse_pem;
use crate::keys::pem_blocks_of;
use crate::keys::spec_tlv_at;
use crate::keys::tlv_at;
use crate::token::Error;

verus! {

#[verifier::external_type_specification]
#[verifier::external_body]
pub struct ExEd25519KeyPair(ring::signature::Ed25519KeyPair);

#[verifier::external_type_specification]
#[verifier::external_body]
pub struct ExEcdsaKeyPair(ring::signature::EcdsaKeyPair);

/// Does the Ed25519 algorithm accept this signature over this data under
/// this key? A function of the three inputs alone.
pub uninterp spec fn ed25519_verifies(key: Seq<u8>, data: Seq<u8>, signature: Seq<u8>) -> bool;

/// Does the P-256 algorithm (with SHA-256 and the fixed signature layout)
/// accept this signature over this data under this key? A function of the
/// three inputs alone.
pub uninterp spec fn ecdsa_p256_verifies(key: Seq<u8>, data: Seq<u8>, signature: Seq<u8>) -> bool;

/// Relies on ring::signature::UnparsedPublicKey::verify with the ED25519
/// algorithm: acceptance depends on key, data and signature alone.
#[verifier::external_body]
fn ring_verify_ed25519(key: &[u8], data: &[u8], signature: &[u8]) -> (r: bool)
    ensures
        r == ed25519_verifies(key@, data@, signature@),
{
    ring::signature::UnparsedPublicKey::new(&ring::signature::ED25519, key).verify(
        data,
        signature,
    ).is_ok()
}

/// Relies on ring::signature::UnparsedPublicKey::verify with the
/// ECDSA_P256_SHA256_FIXED algorithm: acceptance depends on key, data and
/// signature alone.
#[verifier::external_body]
fn ring_verify_ecdsa_p256(key: &[u8], data: &[u8], signature: &[u8]) -> (r: bool)
    ensures
        r == ecdsa_p256_verifies(key@, data@, signature@),
{
    ring::signature::UnparsedPublicKey::new(&ring::signature::ECDSA_P256_SHA256_FIXED, key).verify(
        data,
        signature,
    ).is_ok()
}

/// Does the Ed25519 PKCS#8 reader accept these document bytes? A function
/// of the bytes alone.
pub uninterp spec fn ed25519_pkcs8_ok(pkcs8: Seq<u8>) -> bool;

/// The Ed25519 signature over `data` by the key a PKCS#8 document holds.
/// Ed25519 signing is deterministic: a function of the document and the
/// data alone.
pub uninterp spec fn ed25519_sig_of(pkcs8: Seq<u8>, data: Seq<u8>) -> Seq<u8>;

/// Relies on ring::signature::Ed25519KeyPair::from_pkcs8_maybe_unchecked
/// and Ed25519KeyPair::sign: the reader accepts a fixed set of documents,
/// and signing the accepted key is deterministic with a 64-byte result.
#[verifier::external_body]
fn ed25519_sign_pkcs8(pkcs8: &[u8], data: &[u8]) -> (r: Result<Vec<u8>, Error>)
    ensures
        r is Ok <==> ed25519_pkcs8_ok(pkcs8@),
        r matches Ok(v) ==> v@ == ed25519_sig_of(pkcs8@, data@) && v@.len() == 64,
        r matches Err(e) ==> e == Error::MalformedKey,
{
    match ring::signature::Ed25519KeyPair::from_pkcs8_maybe_unchecked(pkcs8) {
        Ok(pair) => Ok(pair.sign(data).as_ref().to_vec()),
        Err(_) => Err(Error::MalformedKey),
    }
}

/// Does the P-256 PKCS#8 reader accept these document bytes? A function of
/// the bytes alone.
pub uninterp spec fn ecdsa_p256_pkcs8_ok(pkcs8: Seq<u8>) -> bool;

/// Relies on ring::signature::EcdsaKeyPair::from_pkcs8 with the
/// ECDSA_P256_SHA256_FIXED_SIGNING algorithm: the document parse depends
/// on the bytes alone; beyond it only the drawing of internal material
/// from the system's randomness can fail, so acceptance of the document is
/// owed of every success and refusal of a bad document is certain.
#[verifier::external_body]
fn ecdsa_keypair_from_pkcs8(pkcs8: &[u8]) -> (r: Result<ring::signature::EcdsaKeyPair, Error>)
    ensures
        r is Ok ==> ecdsa_p256_pkcs8_ok(pkcs8@),
        !ecdsa_p256_pkcs8_ok(pkcs8@) ==> r is Err,
        r matches Err(e) ==> e == Error::MalformedKey,
{
    match ring::signature::EcdsaKeyPair::from_pkcs8(
        &ring::signature::ECDSA_P256_SHA256_FIXED_SIGNING,
        pkcs8,
    ) {
        Ok(pair) => Ok(pair),
        Err(_) => Err(Error::MalformedKey),
    }
}

/// Relies on ring::signature::EcdsaKeyPair::sign, drawing its nonce from a
/// fresh SystemRandom: a fixed-width P-256 signature is 64 bytes, whatever
/// the randomness did.
#[verifier::external_body]
fn ecdsa_sign(key: &ring::signature::EcdsaKeyPair, data: &[u8]) -> (r: Result<Vec<u8>, Error>)
    ensures
        r matches Ok(v) ==> v@.len() == 64,
{
    match key.sign(&ring::rand::SystemRandom::new(), data) {
        Ok(sig) => Ok(sig.as_ref().to_vec()),
        Err(_) => Err(Error::SignFailed),
    }
}

/// Whether the signature signs the data, decided by the algorithm the
/// resolved key calls for. With no key at hand every signature passes —
/// the insecure inspect-only mode, chosen explicitly by handing no key.
pub fn verify_data(key: Option<&PublicKey>, signature: &[u8], data: &[u8]) -> (r: bool)
    ensures
        key is None ==> r,
        key matches Some(k) ==> r == (if k.kind == PublicKeyKind::Ed25519 {
            ed25519_verifies(k.bytes@, data@, signature@)
        } else {
            ecdsa_p256_verifies(k.bytes@, data@, signature@)
        }),
{
    let k = match key {
        Some(k) => k,
        None => {
            return true;
        },
    };
    match k.kind {
        PublicKeyKind::Ed25519 => ring_verify_ed25519(k.bytes.as_slice(), data, signature),
        PublicKeyKind::EcdsaP256 => ring_verify_ecdsa_p256(k.bytes.as_slice(), data, signature),
    }
}

/// A verification capability built from a resolved public key.
pub struct KeyVerifier {
    pub key: PublicKey,
}

impl Verifier for KeyVerifier {
    fn verify(&self, signature: &[u8], data: &[u8]) -> bool {
        verify_data(Some(&self.key), signature, data)
    }
}

/// The PKCS#8 document a private-key armor holds: the first block's body,
/// provided its tag is `PRIVATE KEY`.
pub open spec fn pem_private_key_of(key_pem: Seq<u8>) -> Option<Seq<u8>> {
    match pem_blocks_of(key_pem) {
        Some(p) => if p.0 == "PRIVATE KEY"@ {
            Some(p.1)
        } else {
            None
        },
        None => None,
    }
}

/// A 64-byte signature derived from a private key given as armored text:
/// the block must carry the `PRIVATE KEY` tag; its body is tried as an
/// Ed25519 key first, then as a P-256 key. An Ed25519 document always
/// signs, deterministically; a document neither reader accepts is
/// `MalformedKey`; only P-256 signing, which draws a random nonce, may
/// fail of its own.
pub fn sign_with_key_pem(key_pem: &[u8], data: &[u8]) -> (r: Result<Vec<u8>, Error>)
    ensures
        r matches Ok(v) ==> v@.len() == 64,
        pem_blocks_of(key_pem@) is None ==> r == Err::<Vec<u8>, Error>(Error::MalformedKey),
        pem_blocks_of(key_pem@) matches Some(p) && p.0 != "PRIVATE KEY"@ ==> r == Err::<
            Vec<u8>,
            Error,
        >(Error::MalformedKey),
        pem_private_key_of(key_pem@) is Some && ed25519_pkcs8_ok(pem_private_key_of(key_pem@)->Some_0)
            ==> r is Ok && r->Ok_0@ == ed25519_sig_of(pem_private_key_of(key_pem@)->Some_0, data@),
        pem_private_key_of(key_pem@) is Some && !ed25519_pkcs8_ok(
            pem_private_key_of(key_pem@)->Some_0,
        ) && !ecdsa_p256_pkcs8_ok(pem_private_key_of(key_pem@)->Some_0) ==> r == Err::<
            Vec<u8>,
            Error,
        >(Error::MalformedKey),
{
    let (tag, contents) = match parse_pem(key_pem) {
        Ok(p) => p,
        Err(e) => {
            return Err(e);
        },
    };
    if !(tag == String::from_str("PRIVATE KEY")) {
        return Err(Error::MalformedKey);
    }
    match ed25519_sign_pkcs8(contents.as_slice(), data) {
        Ok(sig) => Ok(sig),
        Err(_) => {
            let pair = match ecdsa_keypair_from_pkcs8(contents.as_slice()) {
                Ok(pair) => pair,
                Err(e) => {
                    return Err(e);
                },
            };
            ecdsa_sign(&pair, data)
        },
    }
}

/// A big-endian integer padded or trimmed to exactly 32 bytes: shorter
/// content never occurs in well-formed P-256 signatures, and longer
/// content must carry nothing but zeros before its last 32 bytes.
pub open spec fn spec_int_fixed32(s: Seq<u8>, start: int, end: int) -> Option<Seq<u8>> {
    if end - start < 32 {
        None
    } else if forall|k: int| start <= k < end - 32 ==> s[k] == 0 {
        Some(s.subrange(end - 32, end))
    } else {
        None
    }
}

/// What converting a DER-encoded ECDSA signature to the fixed 64-byte
/// layout yields: one sequence of exactly two integers, each fitting 32
/// big-endian bytes, concatenated r then s.
pub open spec fn spec_raw_signature_of(der: Seq<u8>) -> Result<Seq<u8>, Error> {
    match spec_tlv_at(der, 0) {
        None => Err(Error::MalformedInput),
        Some(outer) => {
            if !(outer.tag == 0x30 && outer.end == der.len()) {
                Err(Error::MalformedInput)
            } else {
                match spec_tlv_at(der, outer.start) {
                    None => Err(Error::MalformedInput),
                    Some(ri) => {
                        if !(ri.tag == 0x02 && ri.end <= outer.end) {
                            Err(Error::MalformedInput)
                        } else {
                            match spec_tlv_at(der, ri.end) {
                                None => Err(Error::MalformedInput),
                                Some(si) => {
                                    if !(si.tag == 0x02 && si.end == outer.end) {
                                        Err(Error::MalformedInput)
                                    } else {
                                        match (
                                            spec_int_fixed32(der, ri.start, ri.end),
                                            spec_int_fixed32(der, si.start, si.end),
                                        ) {
                                            (Some(rb), Some(sb)) => Ok(rb + sb),
                                            _ => Err(Error::MalformedInput),
                                        }
                                    }
                                },
                            }
                        }
                    },
                }
            }
        },
    }
}

fn all_zero(s: &[u8], from: usize, to: usize) -> (r: bool)
    requires
        from <= to <= s@.len(),
    ensures
        r == forall|k: int| from <= k < to ==> s@[k] == 0,
{
    let mut j: usize = from;
    while j < to
        invariant
            from <= j <= to <= s@.len(),
            forall|k: int| from <= k < j ==> s@[k] == 0,
        decreases to - j,
    {
        if s[j] != 0 {
            return false;
        }
        j = j + 1;
    }
    true
}

/// One integer of the signature taken to its fixed 32 bytes; see
/// [`spec_int_fixed32`].
fn int_fixed32(s: &[u8], start: usize, end: usize) -> (r: Option<Vec<u8>>)
    requires
        start <= end <= s@.len(),
    ensures
        r matches Some(v) ==> spec_int_fixed32(s@, start as int, end as int) == Some(v@)
            && v@.len() == 32,
        r is None ==> spec_int_fixed32(s@, start as int, end as int) is None,
{
    if end - start < 32 {
        return None;
    }
    if !all_zero(s, start, end - 32) {
        return None;
    }
    Some(slice_to_vec(&s[end - 32..end]))
}

/// A DER-encoded ECDSA signature turned into the envelope's fixed 64-byte
/// layout; see [`spec_raw_signature_of`].
pub fn raw_signature_from_der(der: &[u8]) -> (r: Result<Vec<u8>, Error>)
    ensures
        r matches Ok(v) ==> spec_raw_signature_of(der@) == Ok::<Seq<u8>, Error>(v@) && v@.len()
            == 64,
        r matches Err(e) ==> spec_raw_signature_of(der@) == Err::<Seq<u8>, Error>(e),
{
    let outer = match tlv_at(der, 0) {
        Some(t) => t,
        None => {
            return Err(Error::MalformedInput);
        },
    };
    if !(outer.0 == 0x30 && outer.1 as u64 + outer.2 == der.len() as u64) {
        return Err(Error::MalformedInput);
    }
    let ri = match tlv_at(der, outer.1) {
        Some(t) => t,
        None => {
            return Err(Error::MalformedInput);
        },
    };
    let ri_end_w = ri.1 as u64 + ri.2;
    if !(ri.0 == 0x02 && ri_end_w <= der.len() as u64) {
        return Err(Error::MalformedInput);
    }
    let ri_end = ri_end_w as usize;
    let si = match tlv_at(der, ri_end) {
        Some(t) => t,
        None => {
            return Err(Error::MalformedInput);
        },
    };
    let si_end_w = si.1 as u64 + si.2;
    if !(si.0 == 0x02 && si_end_w == der.len() as u64) {
        return Err(Error::MalformedInput);
    }
    let si_end = si_end_w as usize;
    let rb = match int_fixed32(der, ri.1, ri_end) {
        Some(v) => v,
        None => {
            return Err(Error::MalformedInput);
        },
    };
    let sb = match int_fixed32(der, si.1, si_end) {
        Some(v) => v,
        None => {
            return Err(Error::MalformedInput);
        },
    };
    let mut out = rb;
    crate::envelope::append_bytes(&mut out, &sb);
    Ok(out)
}

/// Outside work a signing operation needs, injected: reading the private
/// key a path names, and the remote signing call, which answers with a
/// DER-encoded ECDSA signature.
pub trait SignBackend {
    fn read_key(&self, path: &String) -> Result<Vec<u8>, Error>;

    fn gcloud_sign(&self, params: &GCloudParams, data: &[u8]) -> Result<Vec<u8>, Error>;
}

/// A 64-byte signature over `data` by the selected operation: a local key
/// is read and used here; the remote signer's DER answer is converted to
/// the fixed layout.
pub fn sign_data<B: SignBackend>(data: &[u8], op: &SignatureOp, backend: &B) -> (r: Result<
    Vec<u8>,
    Error,
>)
    ensures
        r matches Ok(v) ==> v@.len() == 64,
{
    match op {
        SignatureOp::Local(path) => {
            let key_pem = match backend.read_key(path) {
                Ok(v) => v,
                Err(e) => {
                    return Err(e);
                },
            };
            sign_with_key_pem(key_pem.as_slice(), data)
        },
        SignatureOp::GCloud(params) => {
            let der = match backend.gcloud_sign(params, data) {
                Ok(v) => v,
                Err(e) => {
                    return Err(e);
                },
            };
            raw_signature_from_der(der.as_slice())
        },
    }
}

} // verus!
