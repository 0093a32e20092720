//! A verified core for running MIDP-era Java handset games.

pub mod browser;
pub mod canvas;
pub mod codec;
pub mod input;
pub mod device;
pub mod device_nokia;
pub mod jvm;
pub mod me;
pub mod media;
pub mod nokia;
pub mod platform;
pub mod table;
pub mod text;
