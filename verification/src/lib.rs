//! Verified core of a Wayland audio-control popup: configuration defaults,
//! theme and placement rules, and the reconciliation of the per-application
//! and per-device widget lists with the audio state.

pub mod text;
pub mod decimal;
pub mod streams;
pub mod widgets;
pub mod stream_rows;
pub mod device_rows;
pub mod config;
pub mod css;
pub mod icon;
pub mod layout;
pub mod pid;
