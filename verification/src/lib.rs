//! Peer coordination for a pointer shared between machines on one network:
//! the wire frames, the directory of peers, the stitched display topology,
//! the pointer-ownership decisions and the held-key bookkeeping.

pub mod address;
pub mod communicate;
pub mod display;
pub mod filtering;
pub mod gui;
pub mod input;
pub mod key_handler;
pub mod mouse_handler;
pub mod order;
pub mod protocol;
pub mod text;
pub mod topology;
