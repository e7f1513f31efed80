//! The bridge's configuration: the arguments of each role and the role a
//! configuration runs. The command line that fills them lives with the
//! program; these are the values the bridge itself reads.
use std::path::PathBuf;
use vstd::prelude::*;

verus! {

/// The command line: which role to run.
#[derive(Debug)]
pub struct Cli {
    pub role: Role,
}

/// The two subcommands of the bridge.
#[derive(Debug, Clone)]
pub enum Role {
    /// Announce a Reticulum destination and bridge accepted links to a local
    /// Sven Co-op server's UDP port.
    Server(ServerArgs),
    /// Bind a local UDP port that GoldSrc clients connect to and relay traffic
    /// over a Reticulum link to the announced server.
    Client(ClientArgs),
}

/// Arguments of the bridge server.
#[derive(Debug)]
pub struct ServerArgs {
    /// UDP port the real Sven Co-op server listens on (default 27015).
    pub sc_port: u16,
    /// Host the Sven Co-op server runs on (default 127.0.0.1).
    pub sc_host: String,
    /// Where to persist the server identity (default ./sc-rns-server.identity).
    pub identity: PathBuf,
    /// Optional TCP interface to attach, e.g. 0.0.0.0:4234 for a public relay.
    pub tcp: Option<String>,
    /// Enable Wi-Fi/LAN auto-discovery for nearby peers.
    pub auto: bool,
    /// Announce interval in seconds (default 15).
    pub announce_interval: u64,
    /// Optional display name broadcast in this server's announces.
    pub name: Option<String>,
}

/// Arguments of the bridge client.
#[derive(Debug)]
pub struct ClientArgs {
    /// Local UDP port the GoldSrc client will connect to (default 27015).
    pub listen_port: u16,
    /// Destination hash of the server to connect to, in hex (32 hex chars).
    pub server_hash: Option<String>,
    /// Where to persist the client identity (default ./sc-rns-client.identity).
    pub identity: PathBuf,
    /// Optional TCP interface to attach (client side of a public relay).
    pub tcp: Option<String>,
    /// Enable Wi-Fi/LAN auto-discovery for nearby peers.
    pub auto: bool,
}

/// A copy of an optional string.
pub fn clone_opt_string(s: &Option<String>) -> (r: Option<String>)
    ensures
        r == *s,
{
    match s {
        Some(t) => Some(t.clone()),
        None => None,
    }
}

impl Clone for ServerArgs {
    fn clone(&self) -> (r: Self)
        ensures
            r == *self,
    {
        ServerArgs {
            sc_port: self.sc_port,
            sc_host: self.sc_host.clone(),
            identity: self.identity.clone(),
            tcp: clone_opt_string(&self.tcp),
            auto: self.auto,
            announce_interval: self.announce_interval,
            name: clone_opt_string(&self.name),
        }
    }
}

impl Clone for ClientArgs {
    fn clone(&self) -> (r: Self)
        ensures
            r == *self,
    {
        ClientArgs {
            listen_port: self.listen_port,
            server_hash: clone_opt_string(&self.server_hash),
            identity: self.identity.clone(),
            tcp: clone_opt_string(&self.tcp),
            auto: self.auto,
        }
    }
}

/// A bridge to run: server or client, with its arguments.
#[derive(Debug, Clone)]
pub enum BridgeConfig {
    Server(ServerArgs),
    Client(ClientArgs),
}

/// Which side of the bridge a node is.
#[derive(Debug, Clone, Copy, PartialEq, Eq, Structural)]
pub enum BridgeRole {
    Server,
    Client,
}

impl BridgeConfig {
    /// The configuration of the role the command line chose.
    pub fn from_role(role: Role) -> (r: BridgeConfig)
        ensures
            match role {
                Role::Server(a) => r == BridgeConfig::Server(a),
                Role::Client(a) => r == BridgeConfig::Client(a),
            },
    {
        match role {
            Role::Server(args) => BridgeConfig::Server(args),
            Role::Client(args) => BridgeConfig::Client(args),
        }
    }

    /// The role this configuration runs.
    pub fn role(&self) -> (r: BridgeRole)
        ensures
            r == (if self is Server {
                BridgeRole::Server
            } else {
                BridgeRole::Client
            }),
    {
        match self {
            BridgeConfig::Server(_) => BridgeRole::Server,
            BridgeConfig::Client(_) => BridgeRole::Client,
        }
    }
}

} // verus!
