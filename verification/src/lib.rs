//! Keystroke sounds: a bank of encoded clips indexed by key state and sound
//! category, a bridge that carries key events from the keyboard to the
//! player, and a playback engine that turns the latest clip into an endless
//! stream of device frames.

pub mod sound;
pub mod bank;
pub mod bridge;
pub mod keyboard;
pub mod playback;
