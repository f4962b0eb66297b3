//! Real-time voice streaming pipeline: length-prefixed packet framing, a
//! jitter buffer that turns queued compressed packets into a continuous PCM
//! feed, and a capture framer that cuts microphone samples into codec frames.
//! Around it: the stream configuration, the peer registry, the push-to-talk
//! key handling and the interface's event log.

pub mod capture;
pub mod config;
pub mod control;
pub mod events;
pub mod framing;
pub mod naming;
pub mod peers;
pub mod playout;
