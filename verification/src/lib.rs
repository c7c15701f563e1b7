//! Cross-chain messaging SDK: a self-describing payload codec, message
//! envelopes, destination and permission registries, and the
//! session-correlation core that ties them together.
pub mod codec;
pub mod computing;
pub mod cross_chain;
pub mod encoding;
pub mod envelope;
pub mod errors;
pub mod greeting;
pub mod host;
pub mod payload;
pub mod registry;
pub mod value;
