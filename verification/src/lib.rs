//! Cast sender core: the decisions, parsers, packet formats and state machines behind sending a
//! local file or a desktop to Google Cast receivers.

pub mod audio;
pub mod binary64;
pub mod bytes;
pub mod capture;
pub mod clock;
pub mod controller;
pub mod crypto;
pub mod devices;
pub mod discovery;
pub mod encoder;
pub mod failure;
pub mod fanout;
pub mod float32;
pub mod float64;
pub mod frame_queue;
pub mod h264;
pub mod hls;
pub mod hls_http;
pub mod live;
pub mod media;
pub mod media_server;
pub mod mirror;
pub mod monitors;
pub mod muxing;
pub mod network;
pub mod output;
pub mod picture;
pub mod playback;
pub mod random;
pub mod rate_control;
pub mod synthetic;
pub mod text;
pub mod wireplumber;
