//! A host-side bridge that supervises one long-running worker process and
//! relays its line-oriented output as structured messages: decoding, message
//! classification, fan-out dispatch to subscribers and pending requests,
//! worker lifecycle tracking, and request encoding.
pub mod classify;
pub mod dispatch;
pub mod encode;
pub mod gateway;
pub mod resolution;
pub mod supervisor;
pub mod wire;

