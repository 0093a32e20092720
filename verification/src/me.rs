//! The reusable Java ME / MIDP 2D device runtime: lifecycle, display and
//! input queue, graphics, media players, record stores and fonts, with
//! behaviour that matches the Java ME contract.

pub mod canvas;
pub mod font;
pub mod graphics;
pub mod image;
pub mod media;
pub mod midlet;
pub mod rms;
