//! A small service that tells whether an e-mail domain belongs to a known
//! disposable-mail provider.
//!
//! The library holds the logic: normalising domains, reading a blocklist
//! from text, answering a verification request, and the service's few
//! decisions around requests (the not-found reply, the client address, the
//! listening port).

pub mod text;
pub mod blocklist;
pub mod service;
pub mod config;
