//! Iris: camera capture, control and streaming logic with verified contracts.

pub mod text;
pub mod error;
pub mod device;
pub mod mjpeg;
pub mod capture;
pub mod ring_buffer;
pub mod snapshot;
pub mod control;
pub mod profile;
pub mod control_service;
pub mod config;
pub mod pipeline;
pub mod stream;
pub mod capture_service;
pub mod hal;
pub mod ipc;
pub mod hrt;
pub mod harness;
pub mod shared;
pub mod state;
