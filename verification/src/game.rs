//! Sven Co-op game launcher: opens the game auto-connected to a bridge
//! client's localhost listen port via the OS URI handler.
//!
//! The Sven Co-op *game* is Steam app 225840 (the DS is 276060). The game
//! connects to the bridge client's local UDP port, not to Reticulum
//! directly, so the URI is `steam://run/225840//+connect%20127.0.0.1:<port>`.
use vstd::prelude::*;

use crate::text::{decimal, owned, push_decimal, push_str, same_text};

verus! {

/// The Steam appid of the Sven Co-op *game* client.
pub const SC_GAME_APPID: u32 = 225840;

/// Launches the Sven Co-op game connected to `127.0.0.1:<listen_port>`.
pub struct GameLauncher;

/// The URI that runs the game and connects it to `127.0.0.1:<port>`.
pub open spec fn connect_uri_spec(port: u16) -> Seq<char> {
    "steam://run/"@ + decimal(SC_GAME_APPID as nat) + "//+connect%20127.0.0.1:"@ + decimal(
        port as nat,
    )
}

/// A program to spawn, detached, with its arguments.
pub struct OpenCommand {
    pub program: String,
    pub args: Vec<String>,
}

/// The URI handler command for each OS (by `std::env::consts::OS` name):
/// `open` on macOS, `xdg-open` on Linux, `cmd /C start "" <uri>` on Windows.
pub open spec fn open_command_spec(os_name: Seq<char>, uri: Seq<char>) -> Option<
    (Seq<char>, Seq<Seq<char>>),
> {
    if os_name == "macos"@ {
        Some(("open"@, seq![uri]))
    } else if os_name == "linux"@ {
        Some(("xdg-open"@, seq![uri]))
    } else if os_name == "windows"@ {
        Some(("cmd"@, seq!["/C"@, "start"@, ""@, uri]))
    } else {
        None
    }
}

/// The characters of each string in `v`.
pub open spec fn strings_view(v: Seq<String>) -> Seq<Seq<char>> {
    v.map_values(|s: String| s@)
}

impl GameLauncher {
    /// Build the `steam://` URI that runs the game and connects to a server:
    /// `steam://run/225840//+connect%20127.0.0.1:<port>`.
    pub fn connect_uri(listen_port: u16) -> (r: String)
        ensures
            r@ == connect_uri_spec(listen_port),
    {
        let mut r = String::new();
        push_str(&mut r, "steam://run/");
        push_decimal(&mut r, SC_GAME_APPID as u64);
        push_str(&mut r, "//+connect%20127.0.0.1:");
        push_decimal(&mut r, listen_port as u64);
        assert(r@ =~= connect_uri_spec(listen_port));
        r
    }

    /// The command that opens the game on the OS named `os_name`, or, for an
    /// OS with no URI handler, the error `no URI handler for OS <name>`.
    pub fn launch_command(os_name: &str, listen_port: u16) -> (r: Result<OpenCommand, String>)
        ensures
            match r {
                Ok(cmd) => open_command_spec(os_name@, connect_uri_spec(listen_port)) == Some(
                    (cmd.program@, strings_view(cmd.args@)),
                ),
                Err(msg) => open_command_spec(os_name@, connect_uri_spec(listen_port)) is None
                    && msg@ == "no URI handler for OS "@ + os_name@,
            },
    {
        let uri = Self::connect_uri(listen_port);
        let mut args: Vec<String> = Vec::new();
        if same_text(os_name, "macos") {
            args.push(uri);
            let cmd = OpenCommand { program: owned("open"), args };
            assert(strings_view(cmd.args@) =~= seq![connect_uri_spec(listen_port)]);
            Ok(cmd)
        } else if same_text(os_name, "linux") {
            args.push(uri);
            let cmd = OpenCommand { program: owned("xdg-open"), args };
            assert(strings_view(cmd.args@) =~= seq![connect_uri_spec(listen_port)]);
            Ok(cmd)
        } else if same_text(os_name, "windows") {
            args.push(owned("/C"));
            args.push(owned("start"));
            args.push(owned(""));
            args.push(uri);
            let cmd = OpenCommand { program: owned("cmd"), args };
            assert(strings_view(cmd.args@) =~= seq!["/C"@, "start"@, ""@, connect_uri_spec(listen_port)]);
            Ok(cmd)
        } else {
            let mut msg = owned("no URI handler for OS ");
            push_str(&mut msg, os_name);
            Err(msg)
        }
    }
}

} // verus!
