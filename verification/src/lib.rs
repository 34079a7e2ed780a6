//! A keyboard-hotkey daemon's core: it decodes the event records of keyboards, keeps track
//! of the keys that are held down on each, and tells which configured command a key press
//! sets off.
//!
//! The library computes and decides; it reads no file and starts no process. Its caller
//! hands it the configuration text, the registry text and the bytes read from the devices,
//! and launches the commands that it returns.
//!
//! - [`key`]: the keys, and how scan codes and configuration tokens name them.
//! - [`keyset`]: finite sets of keys.
//! - [`text`]: trimming, matching and splitting of text.
//! - [`config`]: commands, the table of key bindings, and the configuration grammar.
//! - [`input`]: the event record codec and the device registry.
//! - [`listener`]: the state machine of one device.
//! - [`laws`]: what holds of every key combination and of every configuration.

pub mod config;
pub mod input;
pub mod key;
pub mod keyset;
pub mod laws;
pub mod listener;
pub mod text;
