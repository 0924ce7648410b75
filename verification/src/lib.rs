//! Cross-signing identity key material: Ed25519 keypairs with
//! encrypted-at-rest storage ("pickling"), canonical-JSON signing, and the
//! three role wrappers (master, self-signing, user-signing) of the
//! cross-signing trust model.

pub mod canonical;
pub mod codec;
pub mod cross_signing;
pub mod crypto;
pub mod envelope;
pub mod signing;
pub mod text;
