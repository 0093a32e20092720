//! Physical-key to handset-key mapping: the fixed Nokia key vocabulary,
//! built-in keyboard presets, the key-name parser, and the `[keymap]`
//! override reader.
//!
//! The physical keys are named by [`KeyCode`], which names the keys the
//! presets and the config reader know by their winit names; a host converts
//! its window system's key events into it.

pub mod config;
pub mod keymap;
pub mod nokia;
pub mod preset;

use vstd::prelude::*;

verus! {

/// A physical keyboard key, by its position name.
#[derive(Debug, Clone, Copy, PartialEq, Eq, Hash, Structural)]
pub enum KeyCode {
    KeyA, KeyB, KeyC, KeyD, KeyE, KeyF, KeyG, KeyH, KeyI, KeyJ, KeyK, KeyL, KeyM,
    KeyN, KeyO, KeyP, KeyQ, KeyR, KeyS, KeyT, KeyU, KeyV, KeyW, KeyX, KeyY, KeyZ,
    Digit0, Digit1, Digit2, Digit3, Digit4, Digit5, Digit6, Digit7, Digit8, Digit9,
    Numpad0, Numpad1, Numpad2, Numpad3, Numpad4, Numpad5, Numpad6, Numpad7, Numpad8, Numpad9,
    F1, F2, F3, F4, F5, F6, F7, F8, F9, F10, F11, F12,
    ArrowUp, ArrowDown, ArrowLeft, ArrowRight,
    Space, Enter, NumpadEnter, Escape, Tab, Backspace, Delete, Insert, Home, End, PageUp, PageDown,
    NumpadMultiply, NumpadAdd, NumpadSubtract, NumpadDivide, NumpadDecimal,
    BracketLeft, BracketRight, Backslash, Slash, Semicolon, Quote, Comma, Period, Minus, Equal, Backquote,
    ShiftLeft, ShiftRight, ControlLeft, ControlRight, AltLeft, AltRight,
}

} // verus!
