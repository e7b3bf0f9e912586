use vstd::prelude::*;

verus! {

/// The newest payload shape version. The version byte is carried through
/// decoding unchanged; no version-dependent behaviour exists yet, the
/// parameter is reserved for future payload-shape evolution.
pub const LATEST_VERSION: u8 = 3;

/// Usage restriction of a third-party grant. Only the literal payload value
/// `"subset"` maps to `Subset`; any other value, or absence, means no
/// restriction.
#[derive(Clone, Copy, Debug, PartialEq, Eq, Structural)]
pub enum Usage {
    Unrestricted,
    Subset,
}

impl Usage {
    /// True when no usage restriction applies.
    pub fn is_none(&self) -> (r: bool)
        ensures
            r == (*self == Usage::Unrestricted),
    {
        match *self {
            Usage::Unrestricted => true,
            Usage::Subset => false,
        }
    }
}

/// Everything a grant says: which feature, for which origin, until when,
/// and the subdomain / third-party / usage flags. Immutable once built.
#[derive(Clone, Debug, PartialEq, Eq)]
pub struct Token {
    pub origin: String,
    pub feature: String,
    pub expiry: u64,
    pub is_subdomain: bool,
    pub is_third_party: bool,
    pub usage: Usage,
}

/// Mathematical model of a [`Token`]: the two strings as character
/// sequences, the rest as plain values.
#[verifier::ext_equal]
pub ghost struct TokenView {
    pub origin: Seq<char>,
    pub feature: Seq<char>,
    pub expiry: u64,
    pub is_subdomain: bool,
    pub is_third_party: bool,
    pub usage: Usage,
}

impl View for Token {
    type V = TokenView;

    open spec fn view(&self) -> TokenView {
        TokenView {
            origin: self.origin@,
            feature: self.feature@,
            expiry: self.expiry,
            is_subdomain: self.is_subdomain,
            is_third_party: self.is_third_party,
            usage: self.usage,
        }
    }
}

/// Everything that can go wrong while decoding payloads, parsing envelopes,
/// verifying signatures, or classifying key material. Failures are terminal
/// for the single operation that hit them; nothing is retried.
#[derive(Clone, Copy, Debug, PartialEq, Eq, Structural)]
pub enum Error {
    /// Payload text missing a required field, of a wrong type, or unparseable.
    MalformedInput,
    /// Envelope shorter than its fixed header, or the payload bytes end
    /// before the declared length is reached.
    Truncated,
    /// Declared payload length does not match the bytes that remain.
    LengthMismatch,
    /// The verifier rejected the signature over the payload.
    SignatureInvalid,
    /// Key structure parsed, but with an algorithm identifier this crate
    /// does not recognize, or one that does not parse at all.
    UnsupportedKey,
    /// Recognized algorithm, but the key material has the wrong shape.
    MalformedKey,
    /// The injected signing capability could not produce a signature.
    SignFailed,
}

} // verus!
