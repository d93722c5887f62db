//! RTMP ingest analysis library.
//!
//! The crate reassembles an RTMP publisher's chunk stream, interprets its
//! messages (AMF0 command channel included), analyzes the carried FLV audio
//! and video payloads, and derives live stream-health diagnostics.

pub mod amf0;
pub mod audio;
pub mod bitstream;
pub mod bytes;
pub mod chunk;
pub mod diagnostics;
pub mod handshake;
pub mod message;
pub mod session;
pub mod stats;
pub mod strutil;
pub mod video;
