//! The key kind resolver: which verification algorithm does an encoded
//! public key call for?
//!
//! The input is a DER-encoded SubjectPublicKeyInfo structure; the text
//! armor around it is unwrapped by a collaborator. The resolver reads the
//! outer sequence, the algorithm-identifier sequence inside it and the
//! object identifiers in that, recognizing exactly two shapes: the Ed25519
//! identifier (1.3.101.112) with 32 bytes of key material, and the generic
//! elliptic-curve identifier (1.2.840.10045.2.1) followed by the P-256
//! curve identifier (1.2.840.10045.3.1.7) with 65 bytes of key material
//! (an uncompressed point). Anything else is an error, never a guess: an
//! unrecognized identifier or any structural failure is `UnsupportedKey`,
//! key material of the wrong length is `MalformedKey`.

use vstd::prelude::*;
use vstd::slice::slice_to_vec;
use vstd::string::StringExecFns;

use crate::token::Error;

verus! {

/// The algorithm family a public key belongs to.
#[derive(Clone, Copy, Debug, PartialEq, Eq, Structural)]
pub enum PublicKeyKind {
    Ed25519,
    EcdsaP256,
}

/// Key material length fixed per kind.
pub open spec fn spec_byte_len(kind: PublicKeyKind) -> usize {
    match kind {
        PublicKeyKind::Ed25519 => 32,
        PublicKeyKind::EcdsaP256 => 65,
    }
}

impl PublicKeyKind {
    /// How many bytes of raw key material this kind carries.
    pub fn byte_len(&self) -> (r: usize)
        ensures
            r == spec_byte_len(*self),
    {
        match *self {
            PublicKeyKind::Ed25519 => 32,
            PublicKeyKind::EcdsaP256 => 65,
        }
    }
}

/// Raw public key material together with its resolved kind.
#[derive(Clone, Debug, PartialEq, Eq)]
pub struct PublicKey {
    pub bytes: Vec<u8>,
    pub kind: PublicKeyKind,
}

// Object identifier contents: 1.3.101.112 (Ed25519), 1.2.840.10045.2.1
// (generic elliptic-curve public key), 1.2.840.10045.3.1.7 (the P-256
// curve).
pub open spec fn oid_ed25519() -> Seq<u8> {
    seq![43u8, 101, 112]
}

pub open spec fn oid_ec_public_key() -> Seq<u8> {
    seq![42u8, 134, 72, 206, 61, 2, 1]
}

pub open spec fn oid_p256() -> Seq<u8> {
    seq![42u8, 134, 72, 206, 61, 3, 1, 7]
}

/// One tag-length-value header: the tag and the value's bounds.
pub ghost struct SpecTlv {
    pub tag: u8,
    pub start: int,
    pub end: int,
}

/// The header at position `i`: a tag byte, then a definite length in short
/// form, or in minimal long form of one or two length bytes. Anything
/// longer has no place in key material.
pub open spec fn spec_tlv_at(s: Seq<u8>, i: int) -> Option<SpecTlv> {
    if !(0 <= i && i + 2 <= s.len()) {
        None
    } else if s[i + 1] < 0x80 {
        Some(SpecTlv { tag: s[i], start: i + 2, end: i + 2 + s[i + 1] })
    } else if s[i + 1] == 0x81 {
        if i + 3 <= s.len() && s[i + 2] >= 0x80 {
            Some(SpecTlv { tag: s[i], start: i + 3, end: i + 3 + s[i + 2] })
        } else {
            None
        }
    } else if s[i + 1] == 0x82 {
        if i + 4 <= s.len() && s[i + 2] * 256 + s[i + 3] >= 0x100 {
            Some(SpecTlv { tag: s[i], start: i + 4, end: i + 4 + s[i + 2] * 256 + s[i + 3] })
        } else {
            None
        }
    } else {
        None
    }
}

/// What resolving a SubjectPublicKeyInfo yields: the kind and the raw key
/// bytes, or the error. The whole input must be the outer sequence; the
/// algorithm-identifier sequence must hold exactly its identifiers; the
/// bit string must fill the rest of the outer sequence and carry no unused
/// bits.
pub open spec fn spec_resolve_spki(s: Seq<u8>) -> Result<(PublicKeyKind, Seq<u8>), Error> {
    match spec_tlv_at(s, 0) {
        None => Err(Error::UnsupportedKey),
        Some(outer) => {
            if !(outer.tag == 0x30 && outer.end == s.len()) {
                Err(Error::UnsupportedKey)
            } else {
                match spec_tlv_at(s, outer.start) {
                    None => Err(Error::UnsupportedKey),
                    Some(alg) => {
                        if !(alg.tag == 0x30 && alg.end <= outer.end) {
                            Err(Error::UnsupportedKey)
                        } else {
                            match spec_tlv_at(s, alg.start) {
                                None => Err(Error::UnsupportedKey),
                                Some(oid1) => {
                                    if !(oid1.tag == 0x06 && oid1.end <= alg.end) {
                                        Err(Error::UnsupportedKey)
                                    } else {
                                        spec_resolve_alg(
                                            s,
                                            s.subrange(oid1.start, oid1.end),
                                            oid1.end,
                                            alg.end,
                                        )
                                    }
                                },
                            }
                        }
                    },
                }
            }
        },
    }
}

/// The algorithm identifiers classified, then the key material checked;
/// `after_oid1` and `alg_end` bound what is left of the algorithm
/// sequence, whose end is where the bit string starts.
pub open spec fn spec_resolve_alg(s: Seq<u8>, oid1: Seq<u8>, after_oid1: int, alg_end: int) -> Result<
    (PublicKeyKind, Seq<u8>),
    Error,
> {
    if oid1 == oid_ed25519() {
        if after_oid1 == alg_end {
            spec_resolve_key_bits(s, PublicKeyKind::Ed25519, alg_end)
        } else {
            Err(Error::UnsupportedKey)
        }
    } else if oid1 == oid_ec_public_key() {
        match spec_tlv_at(s, after_oid1) {
            None => Err(Error::UnsupportedKey),
            Some(oid2) => {
                if oid2.tag == 0x06 && oid2.end == alg_end && s.subrange(oid2.start, oid2.end)
                    == oid_p256() {
                    spec_resolve_key_bits(s, PublicKeyKind::EcdsaP256, alg_end)
                } else {
                    Err(Error::UnsupportedKey)
                }
            },
        }
    } else {
        Err(Error::UnsupportedKey)
    }
}

/// The bit string holding the key material: it must fill the rest of the
/// structure, declare no unused bits, and hold exactly the kind's length.
pub open spec fn spec_resolve_key_bits(s: Seq<u8>, kind: PublicKeyKind, at: int) -> Result<
    (PublicKeyKind, Seq<u8>),
    Error,
> {
    match spec_tlv_at(s, at) {
        None => Err(Error::UnsupportedKey),
        Some(bits) => {
            if !(bits.tag == 0x03 && bits.end == s.len() && bits.start < bits.end && s[bits.start]
                == 0) {
                Err(Error::UnsupportedKey)
            } else if bits.end - (bits.start + 1) != spec_byte_len(kind) {
                Err(Error::MalformedKey)
            } else {
                Ok((kind, s.subrange(bits.start + 1, bits.end)))
            }
        },
    }
}

/// An executable resolution models a specified one.
pub open spec fn key_result_models(r: Result<PublicKey, Error>, m: Result<
    (PublicKeyKind, Seq<u8>),
    Error,
>) -> bool {
    match r {
        Ok(k) => m is Ok && k.kind == m->Ok_0.0 && k.bytes@ == m->Ok_0.1,
        Err(e) => m is Err && e == m->Err_0,
    }
}

/// The header at position `i`, executably; see [`spec_tlv_at`]. The
/// value's bounds are reported as they are declared and may point past the
/// input's end — callers check them against the region they are reading.
pub(crate) fn tlv_at(s: &[u8], i: usize) -> (r: Option<(u8, usize, u64)>)
    ensures
        r matches Some(p) ==> spec_tlv_at(s@, i as int) == Some(
            SpecTlv { tag: p.0, start: p.1 as int, end: p.1 + p.2 },
        ) && p.1 <= s@.len() + 4 && p.2 <= 0xFFFF,
        r is None ==> spec_tlv_at(s@, i as int) is None,
{
    if s.len() < 2 || i > s.len() - 2 {
        return None;
    }
    let l0 = s[i + 1];
    if l0 < 0x80 {
        Some((s[i], i + 2, l0 as u64))
    } else if l0 == 0x81 {
        if s.len() >= 3 && i <= s.len() - 3 && s[i + 2] >= 0x80 {
            Some((s[i], i + 3, s[i + 2] as u64))
        } else {
            None
        }
    } else if l0 == 0x82 {
        if s.len() >= 4 && i <= s.len() - 4 && (s[i + 2] as u32) * 256 + (s[i + 3] as u32) >= 0x100
        {
            Some((s[i], i + 4, (s[i + 2] as u64) * 256 + (s[i + 3] as u64)))
        } else {
            None
        }
    } else {
        None
    }
}

/// The kind and raw bytes of a DER-encoded SubjectPublicKeyInfo; see
/// [`spec_resolve_spki`]. Never guesses: an unrecognized or unparseable
/// structure is `UnsupportedKey`, key material of the wrong length for its
/// kind is `MalformedKey`.
pub fn resolve_public_key(der: &[u8]) -> (r: Result<PublicKey, Error>)
    ensures
        key_result_models(r, spec_resolve_spki(der@)),
{
    let outer = match tlv_at(der, 0) {
        Some(t) => t,
        None => {
            return Err(Error::UnsupportedKey);
        },
    };
    if !(outer.0 == 0x30 && outer.1 as u64 + outer.2 == der.len() as u64) {
        return Err(Error::UnsupportedKey);
    }
    let alg = match tlv_at(der, outer.1) {
        Some(t) => t,
        None => {
            return Err(Error::UnsupportedKey);
        },
    };
    let alg_end_w = alg.1 as u64 + alg.2;
    if !(alg.0 == 0x30 && alg_end_w <= der.len() as u64) {
        return Err(Error::UnsupportedKey);
    }
    let alg_end = alg_end_w as usize;
    let oid1 = match tlv_at(der, alg.1) {
        Some(t) => t,
        None => {
            return Err(Error::UnsupportedKey);
        },
    };
    let oid1_end_w = oid1.1 as u64 + oid1.2;
    if !(oid1.0 == 0x06 && oid1_end_w <= alg_end as u64) {
        return Err(Error::UnsupportedKey);
    }
    let oid1_end = oid1_end_w as usize;
    let oid1_bytes = slice_to_vec(&der[oid1.1..oid1_end]);
    let kind: PublicKeyKind = if crate::payload::eq_bytes(&oid1_bytes, &oid_ed25519_vec()) {
        if oid1_end != alg_end {
            return Err(Error::UnsupportedKey);
        }
        PublicKeyKind::Ed25519
    } else if crate::payload::eq_bytes(&oid1_bytes, &oid_ec_public_key_vec()) {
        let oid2 = match tlv_at(der, oid1_end) {
            Some(t) => t,
            None => {
                return Err(Error::UnsupportedKey);
            },
        };
        let oid2_end_w = oid2.1 as u64 + oid2.2;
        if !(oid2.0 == 0x06 && oid2_end_w == alg_end as u64) {
            return Err(Error::UnsupportedKey);
        }
        let oid2_bytes = slice_to_vec(&der[oid2.1..alg_end]);
        if !crate::payload::eq_bytes(&oid2_bytes, &oid_p256_vec()) {
            return Err(Error::UnsupportedKey);
        }
        PublicKeyKind::EcdsaP256
    } else {
        return Err(Error::UnsupportedKey);
    };
    let bits = match tlv_at(der, alg_end) {
        Some(t) => t,
        None => {
            return Err(Error::UnsupportedKey);
        },
    };
    let bits_end_w = bits.1 as u64 + bits.2;
    if !(bits.0 == 0x03 && bits_end_w == der.len() as u64 && (bits.1 as u64) < bits_end_w
        && der[bits.1] == 0) {
        return Err(Error::UnsupportedKey);
    }
    let material_len: u64 = bits_end_w - (bits.1 as u64 + 1);
    let expected: usize = match kind {
        PublicKeyKind::Ed25519 => 32,
        PublicKeyKind::EcdsaP256 => 65,
    };
    if material_len != expected as u64 {
        return Err(Error::MalformedKey);
    }
    let bytes = slice_to_vec(&der[bits.1 + 1..der.len()]);
    Ok(PublicKey { bytes, kind })
}

/// What the first PEM block of a text holds: its tag line and its decoded
/// body bytes, or nothing where no block parses.
pub uninterp spec fn pem_blocks_of(input: Seq<u8>) -> Option<(Seq<char>, Seq<u8>)>;

/// Relies on pem::parse: finds the first armored block in the text and
/// base64-decodes its body; the result depends on the input bytes alone.
#[verifier::external_body]
pub(crate) fn parse_pem(input: &[u8]) -> (r: Result<(String, Vec<u8>), Error>)
    ensures
        r matches Ok(p) ==> pem_blocks_of(input@) == Some((p.0@, p.1@)),
        r is Err ==> pem_blocks_of(input@) is None,
        r matches Err(e) ==> e == Error::MalformedKey,
{
    match pem::parse(input) {
        Ok(p) => Ok((p.tag, p.contents)),
        Err(_) => Err(Error::MalformedKey),
    }
}

/// The kind and raw bytes of a public key given as armored text: the block
/// must carry the `PUBLIC KEY` tag, and its body must resolve as a
/// SubjectPublicKeyInfo does ([`spec_resolve_spki`]).
pub fn public_key_from_pem(pem_text: &[u8]) -> (r: Result<PublicKey, Error>)
    ensures
        pem_blocks_of(pem_text@) is None ==> r == Err::<PublicKey, Error>(Error::MalformedKey),
        pem_blocks_of(pem_text@) matches Some(p) ==> if p.0 == "PUBLIC KEY"@ {
            key_result_models(r, spec_resolve_spki(p.1))
        } else {
            r == Err::<PublicKey, Error>(Error::UnsupportedKey)
        },
{
    let (tag, contents) = match parse_pem(pem_text) {
        Ok(p) => p,
        Err(e) => {
            return Err(e);
        },
    };
    if !(tag == String::from_str("PUBLIC KEY")) {
        return Err(Error::UnsupportedKey);
    }
    resolve_public_key(contents.as_slice())
}

fn oid_ed25519_vec() -> (r: Vec<u8>)
    ensures
        r@ == oid_ed25519(),
{
    vec![43u8, 101, 112]
}

fn oid_ec_public_key_vec() -> (r: Vec<u8>)
    ensures
        r@ == oid_ec_public_key(),
{
    vec![42u8, 134, 72, 206, 61, 2, 1]
}

fn oid_p256_vec() -> (r: Vec<u8>)
    ensures
        r@ == oid_p256(),
{
    vec![42u8, 134, 72, 206, 61, 3, 1, 7]
}

} // verus!
