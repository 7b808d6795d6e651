//! Decision logic of Meme Machine: a desktop program that plays a sound when
//! the machine is slapped or when something is plugged in or out.
//!
//! The library never talks to a device, a file or a clock. Callers hand it what
//! they observed and act on what it returns.

pub mod accelerometer;
pub mod catalog;
pub mod commands;
pub mod cooldown;
pub mod detector;
pub mod json;
pub mod level;
pub mod lists;
pub mod microphone;
pub mod monitor;
pub mod paths;
pub mod playback;
pub mod player;
pub mod ports;
pub mod probe_linux;
pub mod probe_macos;
pub mod probe_windows;
pub mod settings;
pub mod text;
pub mod vocabulary;
