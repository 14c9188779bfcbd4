//! Live event-log collection library: channel-pattern resolution, a
//! generic markup-to-JSON transcoder, metadata enrichment, and the
//! per-channel worker policy, each with a verified contract.
pub mod config;
pub mod privilege;
pub mod record;
pub mod resolve;
pub mod ser;
pub mod text;
pub mod worker;
pub mod xml;
