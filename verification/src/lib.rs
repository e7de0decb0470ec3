//! Capability mediation for a host runtime that executes untrusted guest
//! components: resolving per-component access grants from declarative
//! metadata, matching outbound destinations against host allow-lists, and a
//! key/value store abstraction with an optimistic compare-and-swap protocol.

pub mod allowed_hosts;
pub mod asserts;
pub mod decimal;
pub mod memory_store;
pub mod outbound;
pub mod paths;
pub mod redis_store;
pub mod runtime_config;
pub mod store;
pub mod strutil;
pub mod tls;
pub mod up;
pub mod url_parts;
