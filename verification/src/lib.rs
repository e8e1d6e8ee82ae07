//! Live video ingest: container demultiplexing, session bridging and the
//! frame hand-off structures shared with a reader process.
//!
//! Network bytes pass through the [`handshake`], then through a
//! [`session`], which hands each video tag to the demultiplexer in [`flv`].
//! What the decoder makes of the frames is published through the
//! [`frame_buffer`] or the [`surface_pool`]. [`connection`] strings the
//! first three together for one peer.

pub mod byte_buffer;
pub mod connection;
pub mod decoder_sink;
pub mod flv;
pub mod frame_buffer;
pub mod handshake;
pub mod media_time;
pub mod session;
pub mod surface_pool;

pub use flv::{AvcDecoderConfig, VideoPacket};
pub use frame_buffer::{
    SharedFrameBuffer, FRAME_HEADER_SIZE, FRAME_SHM_SIZE, MAX_FRAME_SIZE, MAX_HEIGHT, MAX_WIDTH,
};
pub use session::VideoSink;
pub use surface_pool::SurfaceRing;
