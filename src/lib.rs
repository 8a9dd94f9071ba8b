//! Configuration model and audio-device enumeration rules for a low-latency
//! ASIO driver: which devices each audio backend offers, and how the driver's
//! settings file is read, canonicalised and written.

pub mod devices;
pub mod decimal;
pub mod config;
pub mod scan;
pub mod codec;
pub mod round_trip;
mod text;
