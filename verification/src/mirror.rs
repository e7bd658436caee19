//! Desktop mirroring over Cast Streaming: RTP transport, feedback, profiling and tuning.

pub mod feedback;
pub mod latency;
pub mod negotiation;
pub mod options;
pub mod pipeline;
pub mod profile;
pub mod rtp;
pub mod session;
pub mod stats;
pub mod tuning;
