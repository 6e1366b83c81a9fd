//! Verified core of a live network-traffic viewer.
//!
//! An external capture process delivers an unstructured byte stream; the
//! library synchronizes on frame boundaries inside that stream, decodes
//! IPv4 frames into packet records, and maintains the bounded, identity-stable
//! state behind the interactive display: per-conversation counts, a FIFO
//! history of recent records, a time-bucketed activity series, and the
//! selection / search state machine.

pub mod activity;
pub mod addr;
pub mod bounded;
pub mod decode;
pub mod framer;
pub mod hex;
pub mod history;
pub mod record;
pub mod state;
pub mod stats;
pub mod text;

pub use activity::ActivitySeries;
pub use addr::FlowKey;
pub use addr::Ipv4Bytes;
pub use framer::StreamFramer;
pub use hex::format_hex;
pub use history::HistoryBuffer;
pub use record::PacketUpdate;
pub use record::Protocol;
pub use state::AppState;
pub use state::Command;
pub use stats::Conversation;
pub use stats::ConversationStats;
