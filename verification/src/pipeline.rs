//! Settings handed between the stages of a run: terminal, encoder and
//! renderers.

use vstd::prelude::*;
use crate::recording::Recording;
use crate::style::FrameStyle;

verus! {

/// Pipeline-health counters kept by the encoder thread.
#[derive(Debug, Default)]
pub struct EncoderStats {
    /// Highest observed length of the encoder's inbound queue.
    pub max_inbound_queue_len: std::sync::atomic::AtomicUsize,
    /// Highest observed length of the renderer tap queue.
    pub max_tap_queue_len: std::sync::atomic::AtomicUsize,
    /// Frames that could not be forwarded to a full tap queue.
    pub tap_dropped_frames: std::sync::atomic::AtomicU64,
    /// Frames the encoder received.
    pub frames_received: std::sync::atomic::AtomicU64,
}

/// Configuration of the encoder.
#[derive(Debug, Clone, Copy)]
pub struct EncoderConfig {
    pub cols: u16,
    pub rows: u16,
    pub framerate: u32,
    pub cell_width_px: u32,
    pub cell_height_px: u32,
    pub frame_style: FrameStyle,
    /// A full keyframe every this many diff frames.
    pub keyframe_interval: u32,
}

/// Configuration of the streaming JSON renderer.
#[derive(Debug, Clone, Copy)]
pub struct JsonStreamConfig {
    pub cols: u16,
    pub rows: u16,
    pub framerate: u32,
    pub cell_width_px: u32,
    pub cell_height_px: u32,
    pub frame_style: FrameStyle,
    pub keyframe_interval: u32,
}

/// What a run produced.
#[derive(Debug)]
pub struct RunOutput {
    pub recording: Recording,
}

/// Grid and cell geometry of a run.
#[derive(Debug, Clone, Copy, PartialEq, Eq, Structural)]
pub struct RunOptions {
    pub cols: u16,
    pub rows: u16,
    pub cell_w_px: u32,
    pub cell_h_px: u32,
    pub padding_px: u32,
}

} // verus!
