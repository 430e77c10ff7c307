//! Phone Sync backend library: the verified core of the photo/video backup
//! server — range and tag negotiation, media metadata parsing, the ffmpeg
//! filter graphs and encoder options, the media index and its filing rules,
//! the publish index and feed, and the server's settings and limits.

pub mod auth;
pub mod bytes;
pub mod config;
pub mod error;
pub mod handlers;
pub mod heif;
pub mod imaging;
pub mod models;
pub mod order;
pub mod orientation;
pub mod publish;
pub mod serve;
pub mod storage;
pub mod text;
pub mod transcode;
