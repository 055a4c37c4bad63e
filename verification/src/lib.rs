//! A minimal image storage service: a store that assigns identifiers to
//! uploaded byte payloads and serves them back, a codec that reads requests
//! and writes responses for two transports (an HTTP front door and a native
//! message channel), a snapshot format that lets the store survive restarts,
//! and the dispatcher that ties them together.

pub mod base64;
pub mod codec;
pub mod dispatch;
pub mod snapshot;
pub mod store;
pub mod text;
