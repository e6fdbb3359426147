//! Shared-canvas drawing server: the verified core.
//!
//! Clients connect over a websocket, send pen positions, and the server
//! relays strokes to everyone while keeping a bounded history of drawn
//! lines.  A small REST interface manages the access list.

pub mod address;
pub mod client;
pub mod coord;
pub mod history;
pub mod listfile;
pub mod rest;
pub mod server;
pub mod text;
