//! Verified core of a push-to-talk dictation tool: the API request limiter, the
//! settings and their defaults, the hotkey and pipeline decisions, the audio
//! downmix, and the text handling around both transcription backends.
pub mod audio;
pub mod config;
pub mod control;
pub mod ratelimit;
pub mod search_path;
pub mod text;
pub mod transcribe;
