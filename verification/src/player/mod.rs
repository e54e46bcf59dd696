//! Playback: buffers, clock, and the decisions of the player.

pub mod audio;
pub mod buffer;
pub mod clock;
pub mod control;
pub mod download;
pub mod feed;
pub mod load;
pub mod mkv_part;
pub mod mp4_part;
pub mod open;
pub mod playlist;
pub mod range_seek;
pub mod seek;
pub mod session;
pub mod stream;
pub mod sync;
pub mod tick;
pub mod types;
