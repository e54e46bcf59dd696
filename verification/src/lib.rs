//! The verified core of a browser video player: the AC-3 / E-AC-3 bitstream
//! decoder, the MP4 and Matroska container logic, M3U playlists, download
//! buffering, A/V synchronisation and the playback decisions.

pub mod ac3;
pub mod decimal;
pub mod demux;
pub mod m3u;
pub mod player;
pub mod text;
