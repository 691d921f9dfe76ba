//! Verified core of a four-deck DJ application: transport clock, sample and
//! deck identifiers, waveform mipmaps and their cache, the audio ring buffer,
//! cue-point persistence format, and the plugin search-path rules.

pub mod core_types;
pub mod transport;
pub mod cues;
pub mod buffer;
pub mod mipmap;
pub mod generator;
pub mod cache;
pub mod scanner;
pub mod analysis;
pub mod display;
pub mod schedule;
