//! Core rules of the `record` system-audio recorder.
pub mod audio;
pub mod binary64;
pub mod channel;
pub mod cli;
pub mod clip;
pub mod decimal;
pub mod disk;
pub mod headless;
pub mod labels;
pub mod launch;
pub mod natural;
pub mod path;
pub mod pcm;
pub mod report;
pub mod sample;
pub mod session;
pub mod spectrum;
pub mod text;
pub mod time;
pub mod tui;
pub mod video;
pub mod waveform;
