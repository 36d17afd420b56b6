//! Driver core for a six-color reflective e-paper panel driven over a
//! command/data SPI interface.
//!
//! The crate holds the packed pixel store (two 4-bit color codes per byte),
//! the color codec, and the protocol engine that sequences commands, chunks
//! frame transfers and synchronizes with the panel's busy line. The engine is
//! generic over a small capability interface ([`port::DisplayPort`]) so that
//! any transport (a hardware SPI bus, a mock in a test harness) can sit
//! behind it.

pub mod display;
pub mod e6_color;
pub mod e6_display;
pub mod nibbles;
pub mod nibbles_vec;
pub mod port;
pub mod protocol;
