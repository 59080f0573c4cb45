//! Integrity, confidentiality and bounded caching for distributed models,
//! with proofs that bind an inference result to the model that produced it.

pub mod cache;
pub mod crypto;
pub mod device;
pub mod inference;
pub mod integrity;
pub mod loader;
pub mod prover;
pub mod version;
