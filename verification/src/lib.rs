//! Verified core of a step recorder: descriptions of recorded clicks, the
//! HTML/Markdown report, the click marker, raw screenshot decoding, export
//! text, the tray menu and the recording state machine.

pub mod text;
pub mod i18n;
pub mod model;
pub mod platform;
pub mod report;
pub mod cursor;
pub mod canvas;
pub mod annotate;
pub mod capture;
pub mod export;
pub mod tray;
pub mod session;
pub mod selftest;
pub mod wide;
pub mod a11y;
pub mod input;
pub mod icon;
pub mod win;
