//! Client-side orchestration for retrieving music albums from a peer-to-peer
//! network behind an HTTP gateway: rate limiting of outbound searches, a
//! polling search session, a matching and scoring engine that assembles
//! complete album offers from noisy peer file listings, and a download
//! orchestrator with a monitoring loop.

pub mod albums;
pub mod client;
pub mod downloads;
pub mod error;
pub mod matching;
pub mod models;
pub mod rate;
pub mod session;
pub mod text;
