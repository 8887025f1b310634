//! Calls into other crates. Each function here makes one call; what is believed
//! of it stands in its contract.

pub mod aead;
pub mod cbor;
pub mod ed25519;
pub mod json;
pub mod mac;
pub mod merkle;
pub mod sha;
pub mod toml_text;
pub mod vrf;
pub mod wasm;
