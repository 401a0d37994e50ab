//! Verified core of the airjump game: the SVG map reader, the sound-file
//! loading sequence and the "continue or stop" rule for fallible results.

pub mod exit;
pub mod audio;
pub mod svg;
pub mod map;
pub mod map_laws;
pub mod resolved;
