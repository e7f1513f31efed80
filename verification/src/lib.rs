//! Sven Co-op over Reticulum: the verified core of the bridge.
//!
//! Two daemons share one engine:
//!  - `server` announces a Reticulum destination and bridges each accepted Link
//!    to a UDP socket that talks to a local Sven Co-op server.
//!  - `client` binds 127.0.0.1:27015 and, when a GoldSrc client sends the first
//!    packet, opens a Link to the announced server destination and relays both
//!    ways until the link closes.
//!
//! This crate holds the decisions those daemons make, each with a contract:
//! the datagram framing, the event routers, the interface plans, the
//! controller's bookkeeping and the dedicated-server helpers. The sockets,
//! processes and the Reticulum engine itself are driven from outside it.
pub mod config;
pub mod controller;
pub mod ds;
pub mod framing;
pub mod game;
pub mod hexcodec;
pub mod paths;
pub mod portable;
pub mod relay;
pub mod server_entry;
pub mod steamcmd;
pub mod text;
pub mod web;

use vstd::prelude::*;

verus! {

/// Reticulum application name of the bridge's destinations.
pub const SC_APP_NAME: &'static str = "sven-coop";

/// Aspect of the destination a bridge server announces.
pub const SC_ASPECT_SERVER: &'static str = "server";

/// Aspect of the destination a bridge client owns.
pub const SC_ASPECT_CLIENT: &'static str = "client";

/// The UDP port a bridge client listens on unless told otherwise.
pub const DEFAULT_LISTEN_PORT: u16 = 27015;

} // verus!
