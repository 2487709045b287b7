//! A movie-fetching pipeline: build a peer-discovery descriptor from
//! catalog metadata, curate the downloaded folder down to one playable
//! file, and track a playback session that tells "user quit" from
//! "content finished".
pub mod curator;
pub mod keys;
pub mod magnet;
pub mod pipeline;
pub mod playback;
