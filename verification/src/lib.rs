//! Verified core of a handheld flight radar: decoding of aircraft and place
//! records, text and layout decisions of the radar screen, and the small state
//! machines that drive the rotary encoder, the network polling and the
//! on-screen notices.

pub mod app;
pub mod clock;
pub mod config;
pub mod display;
pub mod encoder;
pub mod flight;
pub mod helpers;
pub mod network;
pub mod renderer;
pub mod text;
