//! The web control panel's request rules: the defaults a request body may
//! leave out, and the command names its one POST route dispatches on (the
//! same names the desktop shell registers).
use vstd::prelude::*;

use crate::text::{owned, same_text};

verus! {

/// The DS port a request leaves out: the GoldSrc default.
pub fn default_ds_port() -> (r: u16)
    ensures
        r == 27015,
{
    27015
}

/// The player limit a DS start leaves out.
pub fn default_ds_maxplayers() -> (r: u32)
    ensures
        r == 8,
{
    8
}

/// The starting map a DS start leaves out.
pub fn default_ds_map() -> (r: String)
    ensures
        r@ == "svencoop1"@,
{
    owned("svencoop1")
}

/// The Sven Co-op server host a bridge-server start leaves out.
pub fn default_sc_host() -> (r: String)
    ensures
        r@ == "127.0.0.1"@,
{
    owned("127.0.0.1")
}

/// The announce interval (seconds) a bridge-server start leaves out.
pub fn default_announce() -> (r: u64)
    ensures
        r == 15,
{
    15
}

/// A command of the control panel's API.
#[derive(Debug, Clone, Copy, PartialEq, Eq, Structural)]
pub enum ApiCommand {
    State,
    DsStart,
    DsStop,
    StartBridgeServer,
    StopBridgeServer,
    RestartBridgeServer,
    StartClient,
    StopClient,
    RestartClient,
    AddInterfaceTcp,
    AddInterfaceAuto,
    RemoveInterface,
    RenameInterface,
    ConnectAndLaunch,
}

/// The command a POST to `/api/<name>` asks for; anything else is answered
/// "unknown command" (404).
pub open spec fn api_command_spec(name: Seq<char>) -> Option<ApiCommand> {
    if name == "get_state"@ || name == "state"@ {
        Some(ApiCommand::State)
    } else if name == "ds_start"@ {
        Some(ApiCommand::DsStart)
    } else if name == "ds_stop"@ {
        Some(ApiCommand::DsStop)
    } else if name == "start_bridge_server"@ {
        Some(ApiCommand::StartBridgeServer)
    } else if name == "stop_bridge_server"@ {
        Some(ApiCommand::StopBridgeServer)
    } else if name == "restart_bridge_server"@ {
        Some(ApiCommand::RestartBridgeServer)
    } else if name == "start_client"@ {
        Some(ApiCommand::StartClient)
    } else if name == "stop_client"@ {
        Some(ApiCommand::StopClient)
    } else if name == "restart_client"@ {
        Some(ApiCommand::RestartClient)
    } else if name == "add_interface_tcp"@ {
        Some(ApiCommand::AddInterfaceTcp)
    } else if name == "add_interface_auto"@ {
        Some(ApiCommand::AddInterfaceAuto)
    } else if name == "remove_interface"@ {
        Some(ApiCommand::RemoveInterface)
    } else if name == "rename_interface"@ {
        Some(ApiCommand::RenameInterface)
    } else if name == "connect_and_launch"@ {
        Some(ApiCommand::ConnectAndLaunch)
    } else {
        None
    }
}

/// The command a POST to `/api/<name>` asks for.
pub fn api_command(name: &str) -> (r: Option<ApiCommand>)
    ensures
        r == api_command_spec(name@),
{
    if same_text(name, "get_state") || same_text(name, "state") {
        Some(ApiCommand::State)
    } else if same_text(name, "ds_start") {
        Some(ApiCommand::DsStart)
    } else if same_text(name, "ds_stop") {
        Some(ApiCommand::DsStop)
    } else if same_text(name, "start_bridge_server") {
        Some(ApiCommand::StartBridgeServer)
    } else if same_text(name, "stop_bridge_server") {
        Some(ApiCommand::StopBridgeServer)
    } else if same_text(name, "restart_bridge_server") {
        Some(ApiCommand::RestartBridgeServer)
    } else if same_text(name, "start_client") {
        Some(ApiCommand::StartClient)
    } else if same_text(name, "stop_client") {
        Some(ApiCommand::StopClient)
    } else if same_text(name, "restart_client") {
        Some(ApiCommand::RestartClient)
    } else if same_text(name, "add_interface_tcp") {
        Some(ApiCommand::AddInterfaceTcp)
    } else if same_text(name, "add_interface_auto") {
        Some(ApiCommand::AddInterfaceAuto)
    } else if same_text(name, "remove_interface") {
        Some(ApiCommand::RemoveInterface)
    } else if same_text(name, "rename_interface") {
        Some(ApiCommand::RenameInterface)
    } else if same_text(name, "connect_and_launch") {
        Some(ApiCommand::ConnectAndLaunch)
    } else {
        None
    }
}

} // verus!
