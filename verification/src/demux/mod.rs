//! Container formats: detection, Matroska, MP4 and seek indexes.

pub mod boxes;
pub mod codecs;
pub mod demuxer;
pub mod detect;
pub mod ebml;
pub mod elements;
pub mod isomp4;
pub mod matroska;
pub mod mkv;
pub mod mp4;
pub mod track;
pub mod types;
pub mod walk;
