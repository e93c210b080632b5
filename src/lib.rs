//! A broker for long-running server-to-client event streams and the planning
//! logic of the controller that scales it.

pub mod agents;
pub mod batch;
pub mod channel;
pub mod channel_id;
pub mod circular_buffer;
pub mod config;
pub mod controller;
pub mod crypto;
pub mod dto;
pub mod error;
pub mod feature;
pub mod hex_text;
pub mod laws;
pub mod pipe;
pub mod random;
pub mod service;
pub mod sync;
