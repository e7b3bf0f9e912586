//! The envelope codec: the binary wire format around payload bytes.
//!
//! A packed token is `version (1 byte) || signature (64 bytes) || payload
//! length (4 bytes, big-endian unsigned) || payload (exactly that many
//! bytes)`. The signature is always precisely 64 bytes whatever the
//! algorithm; signing and verification are injected capabilities, and the
//! verified data is the payload bytes alone — version and length stay
//! outside it. The whole byte sequence is usually base64-encoded for
//! transport as one opaque token string.

use vstd::prelude::*;
use vstd::slice::slice_to_vec;

use crate::payload::spec_payload_bytes;
use crate::payload::spec_token_from_payload;
use crate::payload::token_result_models;
use crate::token::Error;
use crate::token::Token;

verus! {

/// A signing capability: payload bytes in, a 64-byte signature out.
/// Inability to sign is a fatal error for that one operation. The codec
/// never retries and never inspects the signature.
pub trait Signer {
    fn sign(&self, data: &[u8]) -> Result<Vec<u8>, Error>;
}

/// A verification capability: does this 64-byte signature sign these
/// payload bytes?
pub trait Verifier {
    fn verify(&self, signature: &[u8], data: &[u8]) -> bool;
}

/// A parsed envelope, not yet trusted: nothing says the signature has been
/// checked.
pub struct Envelope {
    pub version: u8,
    pub signature: Vec<u8>,
    pub payload: Vec<u8>,
}

/// Mathematical model of an [`Envelope`].
pub ghost struct EnvelopeView {
    pub version: u8,
    pub signature: Seq<u8>,
    pub payload: Seq<u8>,
}

impl View for Envelope {
    type V = EnvelopeView;

    open spec fn view(&self) -> EnvelopeView {
        EnvelopeView { version: self.version, signature: self.signature@, payload: self.payload@ }
    }
}

/// The four bytes of `n`, most significant first.
pub open spec fn be32_bytes(n: u32) -> Seq<u8> {
    seq![
        (n / 0x1000000) as u8,
        ((n / 0x10000) % 256) as u8,
        ((n / 256) % 256) as u8,
        (n % 256) as u8,
    ]
}

/// The value of four bytes read most significant first.
pub open spec fn be32_value(b: Seq<u8>) -> int {
    b[0] * 0x1000000 + b[1] * 0x10000 + b[2] * 256 + b[3]
}

pub proof fn lemma_be32_round(n: u32)
    ensures
        be32_value(be32_bytes(n)) == n,
{
    vstd::arithmetic::div_mod::lemma_fundamental_div_mod(n as int, 256);
    vstd::arithmetic::div_mod::lemma_fundamental_div_mod(n as int / 256, 256);
    vstd::arithmetic::div_mod::lemma_fundamental_div_mod(n as int / 256 / 256, 256);
    vstd::arithmetic::div_mod::lemma_div_denominator(n as int, 256, 256);
    vstd::arithmetic::div_mod::lemma_div_denominator(n as int, 65536, 256);
    vstd::arithmetic::div_mod::lemma_div_denominator(n as int / 256, 256, 256);
}

/// A packed envelope: version, signature, big-endian payload length,
/// payload.
pub open spec fn spec_build_envelope(version: u8, sig: Seq<u8>, payload: Seq<u8>) -> Seq<u8> {
    seq![version] + sig + be32_bytes(payload.len() as u32) + payload
}

/// What parsing envelope bytes yields. Fewer than 69 bytes (the fixed
/// header), or payload bytes ending before the declared length is reached,
/// is `Truncated`; payload bytes beyond the declared length are
/// `LengthMismatch`; there is no partial acceptance.
pub open spec fn spec_parse_envelope(bytes: Seq<u8>) -> Result<EnvelopeView, Error> {
    if bytes.len() < 69 {
        Err(Error::Truncated)
    } else {
        let declared = be32_value(bytes.subrange(65, 69));
        if bytes.len() - 69 < declared {
            Err(Error::Truncated)
        } else if bytes.len() - 69 > declared {
            Err(Error::LengthMismatch)
        } else {
            Ok(
                EnvelopeView {
                    version: bytes[0],
                    signature: bytes.subrange(1, 65),
                    payload: bytes.subrange(69, bytes.len() as int),
                },
            )
        }
    }
}

/// An executable envelope result models a specified one.
pub open spec fn envelope_result_models(r: Result<Envelope, Error>, m: Result<
    EnvelopeView,
    Error,
>) -> bool {
    match r {
        Ok(env) => m is Ok && env@ == m->Ok_0,
        Err(e) => m is Err && e == m->Err_0,
    }
}

/// Envelope bytes built around a payload; see [`spec_build_envelope`].
pub fn build_envelope(version: u8, signature: &Vec<u8>, payload: &Vec<u8>) -> (r: Vec<u8>)
    requires
        signature@.len() == 64,
        payload@.len() <= u32::MAX,
    ensures
        r@ == spec_build_envelope(version, signature@, payload@),
{
    let mut out: Vec<u8> = Vec::new();
    out.push(version);
    append_bytes(&mut out, signature);
    let n: u32 = payload.len() as u32;
    out.push((n / 0x1000000) as u8);
    out.push(((n / 0x10000) % 256) as u8);
    out.push(((n / 256) % 256) as u8);
    out.push((n % 256) as u8);
    append_bytes(&mut out, payload);
    assert(out@ =~= spec_build_envelope(version, signature@, payload@));
    out
}

pub(crate) fn append_bytes(out: &mut Vec<u8>, src: &Vec<u8>)
    ensures
        final(out)@ == old(out)@ + src@,
{
    let mut k: usize = 0;
    while k < src.len()
        invariant
            k <= src@.len(),
            out@ == old(out)@ + src@.take(k as int),
        decreases src@.len() - k,
    {
        out.push(src[k]);
        assert(old(out)@ + src@.take(k + 1) =~= (old(out)@ + src@.take(k as int)).push(
            src@[k as int],
        ));
        k = k + 1;
    }
    assert(src@.take(src@.len() as int) =~= src@);
}

/// Envelope bytes taken apart, not yet trusted; see
/// [`spec_parse_envelope`]. A parsed signature always has 64 bytes.
pub fn parse_envelope(bytes: &[u8]) -> (r: Result<Envelope, Error>)
    ensures
        envelope_result_models(r, spec_parse_envelope(bytes@)),
        r matches Ok(env) ==> env.signature@.len() == 64,
{
    if bytes.len() < 69 {
        return Err(Error::Truncated);
    }
    let declared: u32 = (bytes[65] as u32) * 0x1000000 + (bytes[66] as u32) * 0x10000 + (bytes[67]
        as u32) * 256 + (bytes[68] as u32);
    assert(declared == be32_value(bytes@.subrange(65, 69))) by {
        assert(bytes@.subrange(65, 69)[0] == bytes@[65]);
        assert(bytes@.subrange(65, 69)[1] == bytes@[66]);
        assert(bytes@.subrange(65, 69)[2] == bytes@[67]);
        assert(bytes@.subrange(65, 69)[3] == bytes@[68]);
    }
    let rest = bytes.len() - 69;
    if (rest as u64) < (declared as u64) {
        return Err(Error::Truncated);
    }
    if (rest as u64) > (declared as u64) {
        return Err(Error::LengthMismatch);
    }
    let signature = slice_to_vec(&bytes[1..65]);
    let payload = slice_to_vec(&bytes[69..bytes.len()]);
    Ok(Envelope { version: bytes[0], signature, payload })
}

/// Payload bytes derived from the token, signed by the injected capability,
/// and framed; the signature must come back with exactly 64 bytes. A
/// payload whose length does not fit the 32-bit length field cannot be
/// framed.
pub fn pack<S: Signer>(version: u8, token: &Token, signer: &S) -> (r: Result<Vec<u8>, Error>)
    ensures
        r matches Ok(out) ==> spec_payload_bytes(token@).len() <= u32::MAX && (exists|
            sig: Seq<u8>,
        |
            sig.len() == 64 && out@ == spec_build_envelope(
                version,
                sig,
                spec_payload_bytes(token@),
            )),
        spec_payload_bytes(token@).len() > u32::MAX ==> r == Err::<Vec<u8>, Error>(
            Error::LengthMismatch,
        ),
{
    let payload = token.to_payload();
    if payload.len() as u64 > u32::MAX as u64 {
        return Err(Error::LengthMismatch);
    }
    let sig = match signer.sign(payload.as_slice()) {
        Ok(s) => s,
        Err(e) => {
            return Err(e);
        },
    };
    if sig.len() != 64 {
        return Err(Error::SignFailed);
    }
    let out = build_envelope(version, &sig, &payload);
    proof {
        assert(sig@.len() == 64 && out@ == spec_build_envelope(
            version,
            sig@,
            spec_payload_bytes(token@),
        ));
    }
    Ok(out)
}

/// Every decoding failure of the payload model is `MalformedInput`.
pub proof fn lemma_payload_errors_are_malformed(version: u8, s: Seq<u8>)
    ensures
        spec_token_from_payload(version, s) matches Err(e) ==> e == Error::MalformedInput,
{
}

/// The step after the verification decision: a rejected signature is
/// `SignatureInvalid`, an accepted one hands the payload to the payload
/// model unchanged.
pub fn complete_unpack(verified: bool, version: u8, payload: &[u8]) -> (r: Result<Token, Error>)
    ensures
        verified ==> token_result_models(r, spec_token_from_payload(version, payload@)),
        !verified ==> r == Err::<Token, Error>(Error::SignatureInvalid),
{
    if !verified {
        return Err(Error::SignatureInvalid);
    }
    Token::from_payload(version, payload)
}

/// A token taken out of envelope bytes: parse, verify, decode. With no
/// verifier supplied every signature is accepted — an insecure,
/// explicitly chosen mode for tooling that only inspects tokens. The
/// verified data is exactly the carried payload bytes.
pub fn unpack<V: Verifier>(bytes: &[u8], verifier: Option<&V>) -> (r: Result<Token, Error>)
    ensures
        spec_parse_envelope(bytes@) matches Err(e) ==> r == Err::<Token, Error>(e),
        spec_parse_envelope(bytes@) matches Ok(env) ==> (token_result_models(
            r,
            spec_token_from_payload(env.version, env.payload),
        ) || r == Err::<Token, Error>(Error::SignatureInvalid)),
        verifier is None ==> (spec_parse_envelope(bytes@) matches Ok(env) ==> token_result_models(
            r,
            spec_token_from_payload(env.version, env.payload),
        )),
        r == Err::<Token, Error>(Error::SignatureInvalid) ==> spec_parse_envelope(bytes@) is Ok
            && verifier is Some,
{
    proof {
        if spec_parse_envelope(bytes@) is Ok {
            let env = spec_parse_envelope(bytes@)->Ok_0;
            lemma_payload_errors_are_malformed(env.version, env.payload);
        }
    }
    let env = match parse_envelope(bytes) {
        Ok(env) => env,
        Err(e) => {
            return Err(e);
        },
    };
    let accepted = match verifier {
        Some(v) => v.verify(env.signature.as_slice(), env.payload.as_slice()),
        None => true,
    };
    complete_unpack(accepted, env.version, env.payload.as_slice())
}

/// The text the standard base64 alphabet (with padding) makes of some
/// bytes; depends on the bytes alone.
pub uninterp spec fn base64_of(b: Seq<u8>) -> Seq<char>;

/// The bytes a base64 text decodes to, or nothing where the text does not
/// decode; depends on the text alone.
pub uninterp spec fn base64_decoded_of(s: Seq<char>) -> Option<Seq<u8>>;

/// Relies on base64::encode: the standard alphabet with padding; the
/// result depends on the input bytes alone, and decoding the produced
/// text gives the bytes back.
#[verifier::external_body]
fn base64_encode(b: &[u8]) -> (r: String)
    ensures
        r@ == base64_of(b@),
        base64_decoded_of(r@) == Some(b@),
{
    base64::encode(b)
}

/// Relies on base64::decode: accepts exactly the texts it can decode; the
/// result depends on the text alone.
#[verifier::external_body]
fn base64_decode(s: &str) -> (r: Result<Vec<u8>, Error>)
    ensures
        r matches Ok(v) ==> base64_decoded_of(s@) == Some(v@),
        r is Err ==> base64_decoded_of(s@) is None,
        r matches Err(e) ==> e == Error::MalformedInput,
{
    match base64::decode(s) {
        Ok(v) => Ok(v),
        Err(_) => Err(Error::MalformedInput),
    }
}

/// A packed envelope carried as one opaque text: the envelope bytes,
/// base64-encoded. The text decodes back to exactly the envelope bytes,
/// so the whole way out and back is lossless.
pub fn pack_text<S: Signer>(version: u8, token: &Token, signer: &S) -> (r: Result<String, Error>)
    ensures
        r matches Ok(text) ==> spec_payload_bytes(token@).len() <= u32::MAX && (exists|
            sig: Seq<u8>,
        |
            sig.len() == 64 && text@ == base64_of(
                spec_build_envelope(version, sig, spec_payload_bytes(token@)),
            ) && base64_decoded_of(text@) == Some(
                spec_build_envelope(version, sig, spec_payload_bytes(token@)),
            )),
        spec_payload_bytes(token@).len() > u32::MAX ==> r == Err::<String, Error>(
            Error::LengthMismatch,
        ),
{
    let bytes = match pack(version, token, signer) {
        Ok(b) => b,
        Err(e) => {
            return Err(e);
        },
    };
    let text = base64_encode(bytes.as_slice());
    proof {
        let sig = choose|sig: Seq<u8>|
            sig.len() == 64 && bytes@ == spec_build_envelope(
                version,
                sig,
                spec_payload_bytes(token@),
            );
        assert(sig.len() == 64 && text@ == base64_of(
            spec_build_envelope(version, sig, spec_payload_bytes(token@)),
        ) && base64_decoded_of(text@) == Some(
            spec_build_envelope(version, sig, spec_payload_bytes(token@)),
        ));
    }
    Ok(text)
}

/// A token taken out of an opaque text: base64-decode, then unpack as
/// [`unpack`] does, with the same opt-in trust-everything mode when no
/// verifier is handed in. A text that does not decode is `MalformedInput`.
pub fn unpack_text<V: Verifier>(text: &str, verifier: Option<&V>) -> (r: Result<Token, Error>)
    ensures
        base64_decoded_of(text@) is None ==> r == Err::<Token, Error>(Error::MalformedInput),
        base64_decoded_of(text@) matches Some(bytes) ==> (spec_parse_envelope(bytes) matches Err(e)
            ==> r == Err::<Token, Error>(e)),
        base64_decoded_of(text@) matches Some(bytes) ==> (spec_parse_envelope(bytes) matches Ok(
            env,
        ) ==> (token_result_models(r, spec_token_from_payload(env.version, env.payload)) || r
            == Err::<Token, Error>(Error::SignatureInvalid))),
        verifier is None ==> (base64_decoded_of(text@) matches Some(bytes) ==> (spec_parse_envelope(
            bytes,
        ) matches Ok(env) ==> token_result_models(
            r,
            spec_token_from_payload(env.version, env.payload),
        ))),
{
    let bytes = match base64_decode(text) {
        Ok(v) => v,
        Err(e) => {
            return Err(e);
        },
    };
    unpack(bytes.as_slice(), verifier)
}

/// Framing inverts exactly: parsing built envelope bytes gives back the
/// version, the signature and the payload, whatever they were.
pub proof fn lemma_envelope_round_trip(version: u8, sig: Seq<u8>, payload: Seq<u8>)
    requires
        sig.len() == 64,
        payload.len() <= u32::MAX,
    ensures
        spec_parse_envelope(spec_build_envelope(version, sig, payload)) == Ok::<
            EnvelopeView,
            Error,
        >(EnvelopeView { version, signature: sig, payload }),
{
    let s = spec_build_envelope(version, sig, payload);
    lemma_be32_round(payload.len() as u32);
    assert(s.subrange(65, 69) =~= be32_bytes(payload.len() as u32));
    assert(s.len() - 69 == be32_value(s.subrange(65, 69)));
    assert(s[0] == version);
    assert(s.subrange(1, 65) =~= sig);
    assert(s.subrange(69, s.len() as int) =~= payload);
}

/// A stream with its full fixed header whose payload bytes stop short of
/// the declared length is `Truncated` — never a partial envelope, never
/// a partial decode.
pub proof fn lemma_truncated_payload(bytes: Seq<u8>)
    requires
        bytes.len() >= 69,
        bytes.len() - 69 < be32_value(bytes.subrange(65, 69)),
    ensures
        spec_parse_envelope(bytes) == Err::<EnvelopeView, Error>(Error::Truncated),
{
}

/// Packing then unpacking inverts: for any token, version and 64-byte
/// signature, the packed envelope parses back to exactly that version,
/// signature and canonical payload, and the payload decodes back to
/// exactly that token. With [`pack`]'s and [`unpack`]'s contracts this
/// says: whenever the verifier accepts what the matching signer produced,
/// unpacking a packed token returns the token unchanged.
pub proof fn lemma_pack_unpack_round_trip(t: crate::token::TokenView, version: u8, sig: Seq<u8>)
    requires
        sig.len() == 64,
        spec_payload_bytes(t).len() <= u32::MAX,
    ensures
        spec_parse_envelope(spec_build_envelope(version, sig, spec_payload_bytes(t))) == Ok::<
            EnvelopeView,
            Error,
        >(EnvelopeView { version, signature: sig, payload: spec_payload_bytes(t) }),
        spec_token_from_payload(version, spec_payload_bytes(t)) == Ok::<
            crate::token::TokenView,
            Error,
        >(t),
{
    lemma_envelope_round_trip(version, sig, spec_payload_bytes(t));
    crate::payload::lemma_payload_round_trip(t, version);
}

} // verus!


