//! Core of a two-party terminal video chat: capture fault tolerance,
//! bandwidth-aware frame gating, frame downscaling, room admission over a
//! best-effort broadcast channel, ticket handling and terminal rendering.
//!
//! Everything here is plain computation on plain values; the surrounding
//! process (camera device, gossip transport, files, the terminal itself)
//! hands values in and carries values out.

pub mod capture;
pub mod codec;
pub mod gate;
pub mod ids;
pub mod registry;
pub mod render;
pub mod rng;
pub mod scale;
pub mod session;
pub mod ticket;
pub mod ui;
pub mod wire;
