//! Verified core of a soundboard and voice changer: the key recorder that
//! captures hotkey chords, the hotkey table and its assignment protocol, and
//! the sample framing and device choice of the audio path.

pub mod keys;
pub mod last_key;
pub mod hotkeys;
pub mod assign;
pub mod frames;
pub mod audio;
pub mod playback;
