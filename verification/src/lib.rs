//! Core logic of a forward HTTP/HTTPS caching proxy: URI classification,
//! origin-connection planning, the fetch/redirect state machine, cache-policy
//! and framing decisions, dual-sink liveness tracking, and the in-flight-fetch
//! registry that prevents duplicate concurrent origin fetches per cache key.

pub mod engine;
pub mod flights;
pub mod httptime;
pub mod uri;
