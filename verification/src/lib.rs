//! Offline dictation and read-aloud: the decisions between the microphone and the keyboard.

pub mod audio;
pub mod cli;
pub mod commands;
pub mod config;
pub mod control;
pub mod desktop;
pub mod engine;
pub mod hotkey;
pub mod ipc;
pub mod keys;
pub mod live;
pub mod model;
pub mod overlay;
pub mod paths;
pub mod scribe;
pub mod single;
pub mod stt;
pub mod text;
pub mod tts;
pub mod typer;
pub mod typist;
pub mod vad;
