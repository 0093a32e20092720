//! Portable audio formats for Java ME hosts: AMR-NB storage framing with the
//! 3GPP fixed-point operators, Standard MIDI Files, and SMAF.

pub mod amr;
pub mod error;
pub mod midi;
pub mod smaf;
pub mod wav;
