//! Speech-session transcription coordinator: audio decoding plans, the
//! single-flight session store, transcript assembly, backup bundles and the
//! model-provisioning decisions, each with a machine-checked contract.
pub mod audio;
pub mod backup;
pub mod error;
pub mod language;
pub mod model;
pub mod session;
pub mod text;
pub mod transcription;
