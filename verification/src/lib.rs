//! Subtitle translation library: SRT handling, windowed translation planning,
//! script validation and the pure decision logic around ffmpeg and Kodi.
#![allow(unused_imports)]

pub mod text;
pub mod srt;
pub mod services;
pub mod settings;
pub mod engine;
pub mod roundtrip;
pub mod matching;
pub mod pricing;
pub mod ffmpeg;
pub mod track_matcher;
pub mod json;
pub mod kodi;
pub mod orchestrate;
pub mod feed;
pub mod jobs;
pub mod laws;
