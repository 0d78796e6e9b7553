//! A library music player core: an Ogg page/packet demuxer with
//! granule-position seeking, an Opus stream reader with pre-skip and
//! end-of-stream trimming, a pull-based playback state, and a recursive
//! play queue with shuffle policies and history tracking.

pub mod audio_conversion;
pub mod decoders;
pub mod models;
pub mod playback;
pub mod queue;
