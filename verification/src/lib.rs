//! Issuing and checking of signed capability tokens ("trial tokens") that
//! grant a named experimental feature to a web origin until a fixed expiry.
//!
//! The crate has three independent pieces:
//! - the payload model: a token's metadata encoded to and decoded from a
//!   flat textual object (`payload`),
//! - the envelope codec: the binary wire format coupling a version tag, a
//!   64-byte signature and a length-prefixed payload (`envelope`),
//! - the key kind resolver: classification of an encoded public key's
//!   algorithm family from its structure (`keys`).
//!
//! Signing and verification primitives are injected capabilities; the codec
//! itself is agnostic to the signature algorithm.

pub mod cli;
pub mod envelope;
pub mod keys;
pub mod payload;
pub mod signing;
pub mod token;

pub use cli::Args;
pub use cli::GCloudParams;
pub use cli::SignatureOp;
pub use cli::parse_expiry;
pub use cli::read_gcloud_params;
pub use envelope::Envelope;
pub use envelope::Signer;
pub use envelope::Verifier;
pub use envelope::build_envelope;
pub use envelope::complete_unpack;
pub use envelope::pack;
pub use envelope::pack_text;
pub use envelope::parse_envelope;
pub use envelope::unpack;
pub use envelope::unpack_text;
pub use keys::PublicKey;
pub use keys::PublicKeyKind;
pub use keys::public_key_from_pem;
pub use keys::resolve_public_key;
pub use signing::KeyVerifier;
pub use signing::SignBackend;
pub use signing::raw_signature_from_der;
pub use signing::sign_data;
pub use signing::sign_with_key_pem;
pub use signing::verify_data;
pub use token::LATEST_VERSION;
pub use token::Error;
pub use token::Token;
pub use token::Usage;
