//! The platform orchestrator's bookkeeping: up to two bridge sessions (one
//! server-role, one client-role, independent of each other) and the
//! dedicated server, the settings persisted so the host resumes its last
//! state, and the checks applied to what the operator asks for.
//!
//! The sessions, the dedicated-server process and the settings file are
//! driven by the caller; this module decides what is started, what is
//! recorded, and what a resume replays.
use vstd::prelude::*;

use crate::config::{clone_opt_string, BridgeRole, ClientArgs, ServerArgs};
use crate::ds::DsStartArgs;
use crate::hexcodec::{
    all_ascii, all_hex, ascii_decode_error, decode_trimmed, encode, hex_encode_spec, HexError,
};
use crate::relay::server_hash_spec;
use crate::text::{
    debug_quoted, debug_text, push_str,
    chars_of, eq_ignore_ascii_case, last_index_spec, lemma_last_index_bound, lower_ascii_seq,
    owned, parse_uint, parse_uint_spec, rfind_char, same_text, starts_with, string_of,
    to_ascii_lowercase, trim_spec,
};

verus! {

/// Why a `host:port` address was refused.
#[derive(Debug, Clone, Copy, PartialEq, Eq, Structural)]
pub enum AddrError {
    /// "TCP address <addr> has no port".
    NoPort,
    /// "TCP address <addr> has a non-numeric port".
    NonNumericPort,
    /// "invalid ... address <addr>: no port" (the port is zero).
    ZeroPort,
}

/// `host:port` split at the last `:`, the port a `u16`.
pub open spec fn host_port_spec(addr: Seq<char>) -> Result<(Seq<char>, nat), AddrError> {
    match last_index_spec(addr, ':') {
        None => Err(AddrError::NoPort),
        Some(colon) => match parse_uint_spec(addr.skip(colon + 1 as int), 65535) {
            None => Err(AddrError::NonNumericPort),
            Some(port) => Ok((addr.take(colon as int), port)),
        },
    }
}

/// The characters of a parsed host and its port.
pub open spec fn host_port_view(r: Result<(String, u16), AddrError>) -> Result<
    (Seq<char>, nat),
    AddrError,
> {
    match r {
        Ok(hp) => Ok((hp.0@, hp.1 as nat)),
        Err(e) => Err(e),
    }
}

/// Parse `host:port`. Returns (host, port). Errors on a missing or
/// non-numeric port.
pub fn parse_host_port(addr: &str) -> (r: Result<(String, u16), AddrError>)
    ensures
        host_port_view(r) == host_port_spec(addr@),
{
    let cs = chars_of(addr);
    let colon = match rfind_char(cs.as_slice(), ':') {
        None => return Err(AddrError::NoPort),
        Some(c) => c,
    };
    proof {
        lemma_last_index_bound(cs@, ':');
    }
    assert(cs@.subrange(colon + 1, cs@.len() as int) =~= addr@.skip(colon + 1 as int));
    let port = match parse_uint(cs.as_slice(), colon + 1, cs.len(), 65535) {
        None => return Err(AddrError::NonNumericPort),
        Some(p) => p as u16,
    };
    let host = string_of(cs.as_slice(), 0, colon);
    assert(cs@.subrange(0, colon as int) =~= addr@.take(colon as int));
    Ok((host, port))
}

/// Whether `host` asks for a server to be bound (`0.0.0.0` or empty).
pub open spec fn is_bind_host_spec(host: Seq<char>) -> bool {
    host == "0.0.0.0"@ || host.len() == 0
}

/// Whether `host` asks for a server to be bound (`0.0.0.0` or empty).
pub fn is_bind_host(host: &str) -> (r: bool)
    ensures
        r == is_bind_host_spec(host@),
{
    same_text(host, "0.0.0.0") || host.is_empty()
}

/// Why a server hash was refused.
#[derive(Debug, Clone, Copy, PartialEq, Eq, Structural)]
pub enum HashError {
    /// "invalid server hash: <error>".
    InvalidHex(HexError),
    /// "server hash must be 16 bytes (32 hex chars), got <bytes> bytes".
    WrongLength { bytes: usize },
}

/// Validate a 32-hex-char destination hash (16 bytes), ignoring
/// surrounding whitespace.
pub fn validate_hex_hash(hex_str: &str) -> (r: Result<(), HashError>)
    ensures
        r.is_ok() == server_hash_spec(hex_str@).is_some(),
        r matches Err(HashError::WrongLength { bytes }) ==> all_hex(trim_spec(hex_str@))
            && trim_spec(hex_str@).len() % 2 == 0 && bytes == trim_spec(hex_str@).len() / 2,
        r matches Err(HashError::InvalidHex(e)) ==> !(all_hex(trim_spec(hex_str@)) && trim_spec(
            hex_str@,
        ).len() % 2 == 0) && (all_ascii(trim_spec(hex_str@)) ==> e == ascii_decode_error(
            trim_spec(hex_str@),
        )),
{
    match decode_trimmed(hex_str) {
        Err(e) => Err(HashError::InvalidHex(e)),
        Ok(bytes) => {
            if bytes.len() != 16 {
                Err(HashError::WrongLength { bytes: bytes.len() })
            } else {
                Ok(())
            }
        },
    }
}

/// The session a role string names: `"server"` or `"client"` (anything else
/// is refused: "unknown role ..., expected \"server\" or \"client\"").
pub fn parse_role(role: &str) -> (r: Option<BridgeRole>)
    ensures
        r == (if role@ == "server"@ {
            Some(BridgeRole::Server)
        } else if role@ == "client"@ {
            Some(BridgeRole::Client)
        } else {
            None::<BridgeRole>
        }),
{
    if same_text(role, "server") {
        Some(BridgeRole::Server)
    } else if same_text(role, "client") {
        Some(BridgeRole::Client)
    } else {
        None
    }
}

/// The status pill: which sessions run.
pub open spec fn role_label_spec(server_running: bool, client_running: bool) -> Option<Seq<char>> {
    if server_running && client_running {
        Some("Server + Client"@)
    } else if server_running {
        Some("Server"@)
    } else if client_running {
        Some("Client"@)
    } else {
        None
    }
}

/// `"Server"`, `"Client"`, `"Server + Client"`, or `None` if neither runs.
pub fn bridge_role_label(server_running: bool, client_running: bool) -> (r: Option<&'static str>)
    ensures
        match r {
            Some(s) => role_label_spec(server_running, client_running) == Some(s@),
            None => role_label_spec(server_running, client_running) is None,
        },
{
    match (server_running, client_running) {
        (true, true) => Some("Server + Client"),
        (true, false) => Some("Server"),
        (false, true) => Some("Client"),
        (false, false) => None,
    }
}

/// Which session's discovered list feeds the server browser: the client's
/// (the role browsing for hosts), else the server's, else none.
pub fn browser_source(server_running: bool, client_running: bool) -> (r: Option<BridgeRole>)
    ensures
        r == (if client_running {
            Some(BridgeRole::Client)
        } else if server_running {
            Some(BridgeRole::Server)
        } else {
            None::<BridgeRole>
        }),
{
    if client_running {
        Some(BridgeRole::Client)
    } else if server_running {
        Some(BridgeRole::Server)
    } else {
        None
    }
}

/// How a TCP or WebSocket interface is attached.
#[derive(Debug, Clone, Copy, PartialEq, Eq, Structural)]
pub enum InterfaceMode {
    /// Bind a server interface on the address.
    BindServer,
    /// Connect to the address as a client.
    ConnectClient,
}

/// How `add_interface_tcp` attaches `addr`: `0.0.0.0:PORT` or `:PORT` binds a
/// server, any other host connects as a client, a zero port is refused.
pub open spec fn tcp_interface_spec(addr: Seq<char>) -> Result<InterfaceMode, AddrError> {
    match host_port_spec(addr) {
        Err(e) => Err(e),
        Ok((host, port)) => if is_bind_host_spec(host) {
            Ok(InterfaceMode::BindServer)
        } else if port > 0 {
            Ok(InterfaceMode::ConnectClient)
        } else {
            Err(AddrError::ZeroPort)
        },
    }
}

/// How a TCP interface for `addr` is attached.
pub fn tcp_interface_mode(addr: &str) -> (r: Result<InterfaceMode, AddrError>)
    ensures
        r == tcp_interface_spec(addr@),
{
    let (host, port) = match parse_host_port(addr) {
        Err(e) => return Err(e),
        Ok(hp) => hp,
    };
    if is_bind_host(host.as_str()) {
        Ok(InterfaceMode::BindServer)
    } else if port > 0 {
        Ok(InterfaceMode::ConnectClient)
    } else {
        Err(AddrError::ZeroPort)
    }
}

/// How `add_interface_websocket` attaches `addr`: a `ws://` or `wss://` URL
/// is a client target; anything else is a `host:port` to bind a server on,
/// whose port must be above zero.
pub open spec fn websocket_interface_spec(addr: Seq<char>) -> Result<InterfaceMode, AddrError> {
    if (addr.len() >= 5 && addr.take(5) == "ws://"@) || (addr.len() >= 6 && addr.take(6)
        == "wss://"@) {
        Ok(InterfaceMode::ConnectClient)
    } else {
        match host_port_spec(addr) {
            Err(e) => Err(e),
            Ok((_, port)) => if port == 0 {
                Err(AddrError::ZeroPort)
            } else {
                Ok(InterfaceMode::BindServer)
            },
        }
    }
}

/// How a WebSocket interface for `addr` is attached.
pub fn websocket_interface_mode(addr: &str) -> (r: Result<InterfaceMode, AddrError>)
    ensures
        r == websocket_interface_spec(addr@),
{
    proof {
        reveal_strlit("ws://");
        reveal_strlit("wss://");
    }
    if starts_with(addr, "ws://") || starts_with(addr, "wss://") {
        return Ok(InterfaceMode::ConnectClient);
    }
    let (_host, port) = match parse_host_port(addr) {
        Err(e) => return Err(e),
        Ok(hp) => hp,
    };
    if port == 0 {
        Err(AddrError::ZeroPort)
    } else {
        Ok(InterfaceMode::BindServer)
    }
}

/// The kinds of interface a descriptor can name.
#[derive(Debug, Clone, Copy, PartialEq, Eq, Structural)]
pub enum InterfaceKind {
    Tcp,
    Udp,
    Websocket,
    Auto,
}

/// The kind a descriptor's `kind` string names, if known.
pub open spec fn interface_kind_spec(kind: Seq<char>) -> Option<InterfaceKind> {
    if kind == "tcp"@ {
        Some(InterfaceKind::Tcp)
    } else if kind == "udp"@ {
        Some(InterfaceKind::Udp)
    } else if kind == "websocket"@ {
        Some(InterfaceKind::Websocket)
    } else if kind == "auto"@ {
        Some(InterfaceKind::Auto)
    } else {
        None
    }
}

/// The kind a descriptor's `kind` string names (`"tcp"`, `"udp"`,
/// `"websocket"`, `"auto"`); unknown kinds are refused on resume.
pub fn interface_kind(kind: &str) -> (r: Option<InterfaceKind>)
    ensures
        r == interface_kind_spec(kind@),
{
    if same_text(kind, "tcp") {
        Some(InterfaceKind::Tcp)
    } else if same_text(kind, "udp") {
        Some(InterfaceKind::Udp)
    } else if same_text(kind, "websocket") {
        Some(InterfaceKind::Websocket)
    } else if same_text(kind, "auto") {
        Some(InterfaceKind::Auto)
    } else {
        None
    }
}

/// One saved Reticulum interface, for re-attaching on resume.
#[derive(Debug)]
pub struct InterfaceDescriptor {
    /// Runtime interface id (hex) captured at attach time; used to match a
    /// `remove_interface` call to this descriptor.
    pub id: Option<String>,
    /// `"tcp"`, `"udp"`, `"websocket"`, or `"auto"`.
    pub kind: String,
    /// Which running session this interface is attached to: `"server"` or
    /// `"client"` (`"server"` for descriptors saved before dual sessions).
    pub role: String,
    /// `host:port` for tcp; the local bind `host:port` for udp; a URL or bind
    /// `host:port` for websocket; absent for auto.
    pub addr: Option<String>,
    /// Remote peer `host:port` for udp only.
    pub peer_addr: Option<String>,
    /// IFAC network name, if any.
    pub ifac_name: Option<String>,
    /// IFAC passphrase, if any.
    pub ifac_passphrase: Option<String>,
}

impl Clone for InterfaceDescriptor {
    fn clone(&self) -> (r: Self)
        ensures
            r == *self,
    {
        InterfaceDescriptor {
            id: clone_opt_string(&self.id),
            kind: self.kind.clone(),
            role: self.role.clone(),
            addr: clone_opt_string(&self.addr),
            peer_addr: clone_opt_string(&self.peer_addr),
            ifac_name: clone_opt_string(&self.ifac_name),
            ifac_passphrase: clone_opt_string(&self.ifac_passphrase),
        }
    }
}

/// The role a descriptor saved without one is attached to.
pub fn default_role() -> (r: String)
    ensures
        r@ == "server"@,
{
    owned("server")
}

/// How resume errors name an interface: its address, else its kind.
pub open spec fn addr_or_kind_spec(d: InterfaceDescriptor) -> Seq<char> {
    match d.addr {
        Some(a) => a@,
        None => d.kind@,
    }
}

impl InterfaceDescriptor {
    /// How resume errors name the interface: its address, else its kind.
    pub fn addr_or_kind(&self) -> (r: String)
        ensures
            r@ == addr_or_kind_spec(*self),
    {
        match &self.addr {
            Some(a) => a.clone(),
            None => self.kind.clone(),
        }
    }
}

/// Whether a descriptor was captured with the interface id `id_hex`
/// (compared ignoring ASCII case).
pub open spec fn descriptor_has_id(d: InterfaceDescriptor, id_hex: Seq<char>) -> bool {
    match d.id {
        Some(i) => lower_ascii_seq(i@) == lower_ascii_seq(id_hex),
        None => false,
    }
}

/// The index of the first id whose lowercase hex text is `id_hex`
/// lowercased (-1 if none).
pub open spec fn interface_index_spec(ids: Seq<Seq<u8>>, id_hex: Seq<char>) -> int
    decreases ids.len(),
{
    if ids.len() == 0 {
        -1
    } else if hex_encode_spec(ids[0]) == lower_ascii_seq(id_hex) {
        0
    } else {
        let j = interface_index_spec(ids.drop_first(), id_hex);
        if j < 0 {
            -1
        } else {
            j + 1
        }
    }
}

proof fn lemma_interface_index_prefix(ids: Seq<Seq<u8>>, id_hex: Seq<char>, i: int)
    requires
        0 <= i <= ids.len(),
        forall|k: int| 0 <= k < i ==> hex_encode_spec(#[trigger] ids[k]) != lower_ascii_seq(id_hex),
    ensures
        i < ids.len() && hex_encode_spec(ids[i]) == lower_ascii_seq(id_hex)
            ==> interface_index_spec(ids, id_hex) == i,
        i == ids.len() ==> interface_index_spec(ids, id_hex) == -1,
    decreases i,
{
    if i > 0 {
        let rest = ids.drop_first();
        assert forall|k: int| 0 <= k < i - 1 implies hex_encode_spec(#[trigger] rest[k])
            != lower_ascii_seq(id_hex) by {
            assert(rest[k] == ids[k + 1]);
        }
        assert(hex_encode_spec(ids[0]) != lower_ascii_seq(id_hex));
        lemma_interface_index_prefix(rest, id_hex, i - 1);
        if i < ids.len() {
            assert(rest[i - 1] == ids[i]);
        }
    }
}

/// The byte contents of each id.
pub open spec fn ids_view(ids: Seq<Vec<u8>>) -> Seq<Seq<u8>> {
    ids.map_values(|v: Vec<u8>| v@)
}

/// Find the interface, among the running node's ids, whose hex matches
/// `id_hex` (ignoring ASCII case).
pub fn find_interface_by_hex(ids: &Vec<Vec<u8>>, id_hex: &str) -> (r: Option<usize>)
    ensures
        match r {
            Some(i) => interface_index_spec(ids_view(ids@), id_hex@) == i as int,
            None => interface_index_spec(ids_view(ids@), id_hex@) == -1,
        },
{
    let target = to_ascii_lowercase(id_hex);
    let mut i: usize = 0;
    while i < ids.len()
        invariant
            i <= ids@.len(),
            target@ == lower_ascii_seq(id_hex@),
            forall|k: int| 0 <= k < i ==> hex_encode_spec(#[trigger] ids_view(ids@)[k])
                != lower_ascii_seq(id_hex@),
        decreases ids@.len() - i,
    {
        let enc = encode(ids[i].as_slice());
        if same_text(enc.as_str(), target.as_str()) {
            proof {
                lemma_interface_index_prefix(ids_view(ids@), id_hex@, i as int);
            }
            return Some(i);
        }
        i = i + 1;
    }
    proof {
        lemma_interface_index_prefix(ids_view(ids@), id_hex@, i as int);
    }
    None
}

/// The position in `after` of the first id that is not in `before` (-1 if
/// none): the interface an attach added.
pub open spec fn new_interface_spec(before: Seq<Seq<u8>>, after: Seq<Seq<u8>>) -> int
    decreases after.len(),
{
    if after.len() == 0 {
        -1
    } else if !before.contains(after[0]) {
        0
    } else {
        let j = new_interface_spec(before, after.drop_first());
        if j < 0 {
            -1
        } else {
            j + 1
        }
    }
}

fn same_bytes(a: &Vec<u8>, b: &Vec<u8>) -> (r: bool)
    ensures
        r == (a@ == b@),
{
    if a.len() != b.len() {
        return false;
    }
    let mut i: usize = 0;
    while i < a.len()
        invariant
            a@.len() == b@.len(),
            i <= a@.len(),
            a@.take(i as int) == b@.take(i as int),
        decreases a@.len() - i,
    {
        if a[i] != b[i] {
            assert(a@[i as int] != b@[i as int]);
            return false;
        }
        i = i + 1;
        assert(a@.take(i as int) =~= a@.take(i - 1).push(a@[i - 1]));
        assert(b@.take(i as int) =~= b@.take(i - 1).push(b@[i - 1]));
    }
    assert(a@ =~= a@.take(i as int));
    assert(b@ =~= b@.take(i as int));
    true
}

fn contains_id(ids: &Vec<Vec<u8>>, id: &Vec<u8>) -> (r: bool)
    ensures
        r == ids_view(ids@).contains(id@),
{
    let mut i: usize = 0;
    while i < ids.len()
        invariant
            i <= ids@.len(),
            forall|k: int| 0 <= k < i ==> #[trigger] ids_view(ids@)[k] != id@,
        decreases ids@.len() - i,
    {
        if same_bytes(&ids[i], id) {
            assert(ids_view(ids@)[i as int] == id@);
            return true;
        }
        i = i + 1;
    }
    false
}

proof fn lemma_new_interface_prefix(before: Seq<Seq<u8>>, after: Seq<Seq<u8>>, i: int)
    requires
        0 <= i <= after.len(),
        forall|k: int| 0 <= k < i ==> before.contains(#[trigger] after[k]),
    ensures
        i < after.len() && !before.contains(after[i]) ==> new_interface_spec(before, after) == i,
        i == after.len() ==> new_interface_spec(before, after) == -1,
    decreases i,
{
    if i > 0 {
        let rest = after.drop_first();
        assert forall|k: int| 0 <= k < i - 1 implies before.contains(#[trigger] rest[k]) by {
            assert(rest[k] == after[k + 1]);
        }
        assert(before.contains(after[0]));
        lemma_new_interface_prefix(before, rest, i - 1);
        if i < after.len() {
            assert(rest[i - 1] == after[i]);
        }
    }
}

/// The interface an attach added: the first id on the node afterwards that
/// was not there before (its runtime id is saved with the descriptor, so a
/// later removal can forget it).
pub fn first_new_interface(before: &Vec<Vec<u8>>, after: &Vec<Vec<u8>>) -> (r: Option<usize>)
    ensures
        match r {
            Some(i) => new_interface_spec(ids_view(before@), ids_view(after@)) == i as int,
            None => new_interface_spec(ids_view(before@), ids_view(after@)) == -1,
        },
{
    let mut i: usize = 0;
    while i < after.len()
        invariant
            i <= after@.len(),
            forall|k: int| 0 <= k < i ==> ids_view(before@).contains(#[trigger] ids_view(after@)[k]),
        decreases after@.len() - i,
    {
        if !contains_id(before, &after[i]) {
            proof {
                lemma_new_interface_prefix(ids_view(before@), ids_view(after@), i as int);
            }
            return Some(i);
        }
        i = i + 1;
    }
    proof {
        lemma_new_interface_prefix(ids_view(before@), ids_view(after@), i as int);
    }
    None
}

/// Persisted operator choices, written to `<bundle>/settings.json` so the
/// host resumes its last state after a restart.
#[derive(Debug)]
pub struct Settings {
    /// Schema version for future migrations.
    pub version: u32,
    /// Last bridge-server args (the host runs the server role).
    pub bridge: Option<ServerArgs>,
    /// Whether the bridge server should be running on resume.
    pub bridge_running: bool,
    /// Last bridge-client args, independent of the server.
    pub client: Option<ClientArgs>,
    /// Whether the bridge client should be running on resume.
    pub client_running: bool,
    /// Last dedicated-server args.
    pub ds: Option<DsStartArgs>,
    /// Whether the DS should be running on resume.
    pub ds_running: bool,
    /// Extra live-attached Reticulum interfaces to re-attach on resume.
    pub interfaces: Vec<InterfaceDescriptor>,
}

impl Default for Settings {
    fn default() -> (r: Self)
        ensures
            r.version == 0,
            r.bridge is None,
            !r.bridge_running,
            r.client is None,
            !r.client_running,
            r.ds is None,
            !r.ds_running,
            r.interfaces@ == Seq::<InterfaceDescriptor>::empty(),
    {
        Settings {
            version: 0,
            bridge: None,
            bridge_running: false,
            client: None,
            client_running: false,
            ds: None,
            ds_running: false,
            interfaces: Vec::new(),
        }
    }
}

/// Whether a descriptor survives the removal of interface `id_hex`.
pub open spec fn keep_descriptor(id_hex: Seq<char>) -> spec_fn(InterfaceDescriptor) -> bool {
    |d: InterfaceDescriptor| !descriptor_has_id(d, id_hex)
}

fn clone_opt_server(a: &Option<ServerArgs>) -> (r: Option<ServerArgs>)
    ensures
        r == *a,
{
    match a {
        Some(x) => Some(x.clone()),
        None => None,
    }
}

fn clone_opt_client(a: &Option<ClientArgs>) -> (r: Option<ClientArgs>)
    ensures
        r == *a,
{
    match a {
        Some(x) => Some(x.clone()),
        None => None,
    }
}

impl Settings {
    /// The current schema version.
    pub const VERSION: u32 = 1;

    /// Fresh settings: current version, nothing running, nothing saved.
    pub fn new() -> (r: Self)
        ensures
            r.version == Self::VERSION,
            r.bridge is None,
            !r.bridge_running,
            r.client is None,
            !r.client_running,
            r.ds is None,
            !r.ds_running,
            r.interfaces@ == Seq::<InterfaceDescriptor>::empty(),
    {
        Settings {
            version: Self::VERSION,
            bridge: None,
            bridge_running: false,
            client: None,
            client_running: false,
            ds: None,
            ds_running: false,
            interfaces: Vec::new(),
        }
    }

    /// Drop the saved descriptor(s) captured with interface id `id_hex`, so
    /// a removed interface is not re-attached on resume.
    pub fn forget_interface(&mut self, id_hex: &str)
        ensures
            final(self).interfaces@ == old(self).interfaces@.filter(keep_descriptor(id_hex@)),
            final(self).version == old(self).version,
            final(self).bridge == old(self).bridge,
            final(self).bridge_running == old(self).bridge_running,
            final(self).client == old(self).client,
            final(self).client_running == old(self).client_running,
            final(self).ds == old(self).ds,
            final(self).ds_running == old(self).ds_running,
    {
        let target = to_ascii_lowercase(id_hex);
        let mut kept: Vec<InterfaceDescriptor> = Vec::new();
        let mut i: usize = 0;
        let n = self.interfaces.len();
        let ghost all = self.interfaces@;
        proof {
            reveal(Seq::filter);
            assert(all.take(0).filter(keep_descriptor(id_hex@)) =~= Seq::<
                InterfaceDescriptor,
            >::empty());
        }
        while i < n
            invariant
                n == all.len(),
                all == self.interfaces@,
                i <= n,
                target@ == lower_ascii_seq(id_hex@),
                kept@ == all.take(i as int).filter(keep_descriptor(id_hex@)),
            decreases n - i,
        {
            let d = &self.interfaces[i];
            let matches = match &d.id {
                Some(x) => eq_ignore_ascii_case(x.as_str(), target.as_str()),
                None => false,
            };
            proof {
                reveal(Seq::filter);
                assert(all.take(i + 1).drop_last() =~= all.take(i as int));
                assert(lower_ascii_seq(target@) =~= lower_ascii_seq(id_hex@)) by {
                    assert forall|k: int| 0 <= k < id_hex@.len() implies #[trigger] lower_ascii_seq(
                        target@,
                    )[k] == lower_ascii_seq(id_hex@)[k] by {}
                }
            }
            if !matches {
                kept.push(d.clone());
            }
            i = i + 1;
        }
        assert(all.take(n as int) =~= all);
        self.interfaces = kept;
    }
}

/// The bookkeeping of a running controller: its settings, the arguments each
/// bridge role was last started with (for restart), which sessions run, and
/// the errors of the last resume.
pub struct ControllerCore {
    pub settings: Settings,
    pub last_server_args: Option<ServerArgs>,
    pub last_client_args: Option<ClientArgs>,
    pub server_running: bool,
    pub client_running: bool,
    pub resume_errors: Vec<String>,
}

/// The core after a bridge server started with `args`.
pub open spec fn server_started_spec(c: ControllerCore, args: ServerArgs) -> ControllerCore {
    ControllerCore {
        settings: Settings { bridge: Some(args), bridge_running: true, ..c.settings },
        last_server_args: Some(args),
        server_running: true,
        ..c
    }
}

/// The core after the bridge server stopped (its args stay saved).
pub open spec fn server_stopped_spec(c: ControllerCore) -> ControllerCore {
    ControllerCore {
        settings: Settings { bridge_running: false, ..c.settings },
        server_running: false,
        ..c
    }
}

/// The core after a bridge client started with `args`.
pub open spec fn client_started_spec(c: ControllerCore, args: ClientArgs) -> ControllerCore {
    ControllerCore {
        settings: Settings { client: Some(args), client_running: true, ..c.settings },
        last_client_args: Some(args),
        client_running: true,
        ..c
    }
}

/// The core after the bridge client stopped (its args stay saved).
pub open spec fn client_stopped_spec(c: ControllerCore) -> ControllerCore {
    ControllerCore {
        settings: Settings { client_running: false, ..c.settings },
        client_running: false,
        ..c
    }
}

/// One thing a resume restarts, in order.
#[derive(Debug)]
pub enum ResumeStep {
    StartServer(ServerArgs),
    StartClient(ClientArgs),
    AttachInterface(InterfaceDescriptor),
    StartDs(DsStartArgs),
}

/// What a resume replays from `s`: the bridge server and client that were
/// running (independent of each other), then every saved interface, then
/// the dedicated server.
pub open spec fn resume_plan_spec(s: Settings) -> Seq<ResumeStep> {
    let server = if s.bridge_running && s.bridge is Some {
        seq![ResumeStep::StartServer(s.bridge->0)]
    } else {
        Seq::empty()
    };
    let client = if s.client_running && s.client is Some {
        seq![ResumeStep::StartClient(s.client->0)]
    } else {
        Seq::empty()
    };
    let ds = if s.ds_running && s.ds is Some {
        seq![ResumeStep::StartDs(s.ds->0)]
    } else {
        Seq::empty()
    };
    server + client + s.interfaces@.map_values(|d: InterfaceDescriptor| ResumeStep::AttachInterface(d))
        + ds
}

/// Why "connect to this server" could not start.
#[derive(Debug, Clone, Copy, PartialEq, Eq, Structural)]
pub enum ConnectError {
    /// "start a client first (set its listen port + interface), then click Connect".
    NoClientYet,
    /// The clicked hash is not 16 bytes of hex.
    BadHash(HashError),
}

impl ControllerCore {
    /// A controller over the settings loaded from disk (fresh ones when none
    /// could be read); the last-start arguments are seeded from them so the
    /// panel opens showing the real last config.
    pub fn new(loaded: Option<Settings>) -> (r: Self)
        ensures
            match loaded {
                Some(s) => r.settings == s,
                None => r.settings == (Settings {
                    version: Settings::VERSION,
                    bridge: None,
                    bridge_running: false,
                    client: None,
                    client_running: false,
                    ds: None,
                    ds_running: false,
                    interfaces: r.settings.interfaces,
                }) && r.settings.interfaces@ == Seq::<InterfaceDescriptor>::empty(),
            },
            r.last_server_args == r.settings.bridge,
            r.last_client_args == r.settings.client,
            !r.server_running,
            !r.client_running,
            r.resume_errors@ == Seq::<String>::empty(),
    {
        let settings = match loaded {
            Some(s) => s,
            None => Settings::new(),
        };
        let last_server_args = clone_opt_server(&settings.bridge);
        let last_client_args = clone_opt_client(&settings.client);
        ControllerCore {
            settings,
            last_server_args,
            last_client_args,
            server_running: false,
            client_running: false,
            resume_errors: Vec::new(),
        }
    }

    /// Whether either bridge session runs.
    pub fn is_running(&self) -> (r: bool)
        ensures
            r == (self.server_running || self.client_running),
    {
        self.server_running || self.client_running
    }

    /// Record that the bridge server started with `args`.
    pub fn server_started(&mut self, args: ServerArgs)
        ensures
            *final(self) == server_started_spec(*old(self), args),
    {
        self.last_server_args = Some(args.clone());
        self.settings.bridge = Some(args);
        self.settings.bridge_running = true;
        self.server_running = true;
    }

    /// Record that the bridge server stopped.
    pub fn server_stopped(&mut self)
        ensures
            *final(self) == server_stopped_spec(*old(self)),
    {
        self.settings.bridge_running = false;
        self.server_running = false;
    }

    /// Record that the bridge client started with `args`.
    pub fn client_started(&mut self, args: ClientArgs)
        ensures
            *final(self) == client_started_spec(*old(self), args),
    {
        self.last_client_args = Some(args.clone());
        self.settings.client = Some(args);
        self.settings.client_running = true;
        self.client_running = true;
    }

    /// Record that the bridge client stopped.
    pub fn client_stopped(&mut self)
        ensures
            *final(self) == client_stopped_spec(*old(self)),
    {
        self.settings.client_running = false;
        self.client_running = false;
    }

    /// Record that the dedicated server was started with `args`.
    pub fn ds_started(&mut self, args: DsStartArgs)
        ensures
            *final(self) == (ControllerCore {
                settings: Settings { ds: Some(args), ds_running: true, ..old(self).settings },
                ..*old(self)
            }),
    {
        self.settings.ds = Some(args);
        self.settings.ds_running = true;
    }

    /// Record that the dedicated server was stopped.
    pub fn ds_stopped(&mut self)
        ensures
            *final(self) == (ControllerCore {
                settings: Settings { ds_running: false, ..old(self).settings },
                ..*old(self)
            }),
    {
        self.settings.ds_running = false;
    }

    /// Record an attached interface so it is re-attached on resume.
    pub fn interface_added(&mut self, desc: InterfaceDescriptor)
        ensures
            final(self).settings.interfaces@ == old(self).settings.interfaces@.push(desc),
            final(self).settings.bridge == old(self).settings.bridge,
            final(self).settings.client == old(self).settings.client,
            final(self).settings.bridge_running == old(self).settings.bridge_running,
            final(self).settings.client_running == old(self).settings.client_running,
            final(self).settings.ds == old(self).settings.ds,
            final(self).settings.ds_running == old(self).settings.ds_running,
            final(self).last_server_args == old(self).last_server_args,
            final(self).last_client_args == old(self).last_client_args,
            final(self).server_running == old(self).server_running,
            final(self).client_running == old(self).client_running,
    {
        self.settings.interfaces.push(desc);
    }

    /// The args a bridge-server restart uses: those it was last started with
    /// (none: "no previous bridge server start to restart from").
    pub fn restart_server_args(&self) -> (r: Option<ServerArgs>)
        ensures
            r == self.last_server_args,
    {
        clone_opt_server(&self.last_server_args)
    }

    /// The args a bridge-client restart uses (none: "no previous client start
    /// to restart from").
    pub fn restart_client_args(&self) -> (r: Option<ClientArgs>)
        ensures
            r == self.last_client_args,
    {
        clone_opt_client(&self.last_client_args)
    }

    /// The client args "click a server → play" restarts the client with: the
    /// last client args, pointed at the clicked server.
    pub fn connect_args(&self, server_hash_hex: String) -> (r: Result<ClientArgs, ConnectError>)
        ensures
            match r {
                Ok(a) => self.last_client_args matches Some(last) && a == (ClientArgs {
                    server_hash: Some(server_hash_hex),
                    ..last
                }) && server_hash_spec(server_hash_hex@) is Some,
                Err(ConnectError::NoClientYet) => self.last_client_args is None,
                Err(ConnectError::BadHash(_)) => self.last_client_args is Some
                    && server_hash_spec(server_hash_hex@) is None,
            },
    {
        let mut args = match &self.last_client_args {
            None => return Err(ConnectError::NoClientYet),
            Some(a) => a.clone(),
        };
        match validate_hex_hash(server_hash_hex.as_str()) {
            Err(e) => return Err(ConnectError::BadHash(e)),
            Ok(()) => {},
        }
        args.server_hash = Some(server_hash_hex);
        Ok(args)
    }

    /// What a resume replays, in order.
    pub fn resume_plan(&self) -> (r: Vec<ResumeStep>)
        ensures
            r@ == resume_plan_spec(self.settings),
    {
        let s = &self.settings;
        let mut plan: Vec<ResumeStep> = Vec::new();
        if s.bridge_running {
            if let Some(a) = &s.bridge {
                plan.push(ResumeStep::StartServer(a.clone()));
            }
        }
        if s.client_running {
            if let Some(a) = &s.client {
                plan.push(ResumeStep::StartClient(a.clone()));
            }
        }
        let ghost head = plan@;
        let ghost descs = s.interfaces@.map_values(
            |d: InterfaceDescriptor| ResumeStep::AttachInterface(d),
        );
        let mut i: usize = 0;
        while i < s.interfaces.len()
            invariant
                i <= s.interfaces@.len(),
                descs == s.interfaces@.map_values(
                    |d: InterfaceDescriptor| ResumeStep::AttachInterface(d),
                ),
                plan@ == head + descs.take(i as int),
            decreases s.interfaces@.len() - i,
        {
            plan.push(ResumeStep::AttachInterface(s.interfaces[i].clone()));
            i = i + 1;
            assert(plan@ =~= head + descs.take(i as int));
        }
        assert(descs.take(i as int) =~= descs);
        if s.ds_running {
            if let Some(a) = &s.ds {
                plan.push(ResumeStep::StartDs(a.clone()));
            }
        }
        proof {
            let server = if s.bridge_running && s.bridge is Some {
                seq![ResumeStep::StartServer(s.bridge->0)]
            } else {
                Seq::empty()
            };
            let client = if s.client_running && s.client is Some {
                seq![ResumeStep::StartClient(s.client->0)]
            } else {
                Seq::empty()
            };
            assert(head =~= server + client);
        }
        assert(plan@ =~= resume_plan_spec(self.settings));
        plan
    }
}

/// Law (what a restart gives back of a start): after the bridge server was
/// started with `args` and then stopped, a restart uses `args` again, and
/// the saved settings still hold them, marked not running.
pub proof fn restart_after_stop_reuses_args(c: ControllerCore, args: ServerArgs)
    ensures
        server_stopped_spec(server_started_spec(c, args)).last_server_args == Some(args),
        server_stopped_spec(server_started_spec(c, args)).settings.bridge == Some(args),
        !server_stopped_spec(server_started_spec(c, args)).settings.bridge_running,
{
}

/// Law: the bridge server and client are independent: starting or stopping
/// one leaves what is recorded of the other as it was.
pub proof fn sessions_are_independent(c: ControllerCore, server: ServerArgs, client: ClientArgs)
    ensures
        ({
            let s = server_started_spec(c, server);
            &&& s.client_running == c.client_running
            &&& s.last_client_args == c.last_client_args
            &&& s.settings.client == c.settings.client
            &&& s.settings.client_running == c.settings.client_running
        }),
        ({
            let s = server_stopped_spec(c);
            &&& s.client_running == c.client_running
            &&& s.last_client_args == c.last_client_args
            &&& s.settings.client == c.settings.client
            &&& s.settings.client_running == c.settings.client_running
        }),
        ({
            let s = client_started_spec(c, client);
            &&& s.server_running == c.server_running
            &&& s.last_server_args == c.last_server_args
            &&& s.settings.bridge == c.settings.bridge
            &&& s.settings.bridge_running == c.settings.bridge_running
        }),
        ({
            let s = client_stopped_spec(c);
            &&& s.server_running == c.server_running
            &&& s.last_server_args == c.last_server_args
            &&& s.settings.bridge == c.settings.bridge
            &&& s.settings.bridge_running == c.settings.bridge_running
        }),
{
}

/// Law (what a resume gives back of a start): once a bridge server was
/// started with `args`, the next resume starts it first, with `args`; once
/// it was stopped, a resume does not start it.
pub proof fn resume_restarts_running_server(c: ControllerCore, args: ServerArgs)
    ensures
        resume_plan_spec(server_started_spec(c, args).settings)[0] == ResumeStep::StartServer(
            args,
        ),
        resume_plan_spec(server_started_spec(c, args).settings).len() >= 1,
        forall|i: int|
            0 <= i < resume_plan_spec(server_stopped_spec(c).settings).len()
                ==> !(#[trigger] resume_plan_spec(server_stopped_spec(c).settings)[i] is StartServer),
{
    let s = server_started_spec(c, args).settings;
    let plan = resume_plan_spec(s);
    let t = server_stopped_spec(c).settings;
    let p2 = resume_plan_spec(t);
    assert forall|i: int| 0 <= i < p2.len() implies !(#[trigger] p2[i] is StartServer) by {
        let client = if t.client_running && t.client is Some {
            seq![ResumeStep::StartClient(t.client->0)]
        } else {
            Seq::empty()
        };
        let ds = if t.ds_running && t.ds is Some {
            seq![ResumeStep::StartDs(t.ds->0)]
        } else {
            Seq::empty()
        };
        let mid = t.interfaces@.map_values(|d: InterfaceDescriptor| ResumeStep::AttachInterface(d));
        assert(p2 =~= client + mid + ds);
        if i < client.len() {
        } else if i < client.len() + mid.len() {
            assert(p2[i] == mid[i - client.len()]);
        } else {
            assert(p2[i] == ds[i - client.len() - mid.len()]);
        }
    }
}

/// Law: a resume replays, in this order, the running bridge server, the
/// running bridge client, every saved interface (each once, in the order
/// saved) and the running dedicated server, and nothing else.
pub proof fn resume_replays_every_saved_interface(s: Settings)
    ensures
        ({
            let plan = resume_plan_spec(s);
            let ns: int = if s.bridge_running && s.bridge is Some { 1 } else { 0 };
            let nc: int = if s.client_running && s.client is Some { 1 } else { 0 };
            let nd: int = if s.ds_running && s.ds is Some { 1 } else { 0 };
            &&& plan.len() == ns + nc + s.interfaces@.len() + nd
            &&& ns == 1 ==> plan[0] == ResumeStep::StartServer(s.bridge->0)
            &&& nc == 1 ==> plan[ns] == ResumeStep::StartClient(s.client->0)
            &&& forall|i: int|
                0 <= i < s.interfaces@.len() ==> #[trigger] plan[ns + nc + i]
                    == ResumeStep::AttachInterface(s.interfaces@[i])
            &&& nd == 1 ==> plan[plan.len() - 1] == ResumeStep::StartDs(s.ds->0)
        }),
{
    let plan = resume_plan_spec(s);
    let ns: int = if s.bridge_running && s.bridge is Some { 1 } else { 0 };
    let nc: int = if s.client_running && s.client is Some { 1 } else { 0 };
    let server = if s.bridge_running && s.bridge is Some {
        seq![ResumeStep::StartServer(s.bridge->0)]
    } else {
        Seq::empty()
    };
    let client = if s.client_running && s.client is Some {
        seq![ResumeStep::StartClient(s.client->0)]
    } else {
        Seq::empty()
    };
    let ds = if s.ds_running && s.ds is Some {
        seq![ResumeStep::StartDs(s.ds->0)]
    } else {
        Seq::empty()
    };
    let mid = s.interfaces@.map_values(|d: InterfaceDescriptor| ResumeStep::AttachInterface(d));
    assert(plan =~= server + client + mid + ds);
    assert(server.len() == ns);
    assert(client.len() == nc);
    assert forall|i: int| 0 <= i < s.interfaces@.len() implies #[trigger] plan[ns + nc + i]
        == ResumeStep::AttachInterface(s.interfaces@[i]) by {
        assert(plan[ns + nc + i] == mid[i]);
    }
}

/// Law: the same holds of the bridge client, independently of the server.
pub proof fn resume_restarts_running_client(c: ControllerCore, args: ClientArgs)
    ensures
        client_stopped_spec(client_started_spec(c, args)).last_client_args == Some(args),
        resume_plan_spec(client_started_spec(c, args).settings).contains(
            ResumeStep::StartClient(args),
        ),
{
    let s = client_started_spec(c, args).settings;
    let plan = resume_plan_spec(s);
    let server = if s.bridge_running && s.bridge is Some {
        seq![ResumeStep::StartServer(s.bridge->0)]
    } else {
        Seq::empty()
    };
    assert(plan[server.len() as int] == ResumeStep::StartClient(args));
}

/// Law: a removed interface's saved descriptor is gone, so a resume does not
/// re-attach it; every other descriptor stays.
pub proof fn forgotten_interface_is_not_resumed(s: Seq<InterfaceDescriptor>, id_hex: Seq<char>)
    ensures
        forall|i: int|
            0 <= i < s.filter(keep_descriptor(id_hex)).len() ==> !descriptor_has_id(
                #[trigger] s.filter(keep_descriptor(id_hex))[i],
                id_hex,
            ),
        forall|d: InterfaceDescriptor|
            s.contains(d) && !descriptor_has_id(d, id_hex) ==> #[trigger] s.filter(
                keep_descriptor(id_hex),
            ).contains(d),
{
    assert forall|i: int| 0 <= i < s.filter(keep_descriptor(id_hex)).len() implies !descriptor_has_id(
        #[trigger] s.filter(keep_descriptor(id_hex))[i],
        id_hex,
    ) by {
        s.lemma_filter_pred(keep_descriptor(id_hex), i);
    }
    assert forall|d: InterfaceDescriptor|
        s.contains(d) && !descriptor_has_id(d, id_hex) implies #[trigger] s.filter(
            keep_descriptor(id_hex),
        ).contains(d) by {
        let k = choose|k: int| 0 <= k < s.len() && s[k] == d;
        s.lemma_filter_contains(keep_descriptor(id_hex), k);
    }
}

/// The line a failed resume step leaves in `resume_errors`: what failed,
/// then the error.
pub open spec fn resume_error_spec(step: ResumeStep, error: Seq<char>) -> Seq<char> {
    match step {
        ResumeStep::StartServer(_) => "bridge server: "@ + error,
        ResumeStep::StartClient(_) => "bridge client: "@ + error,
        ResumeStep::AttachInterface(d) => "interface "@ + debug_quoted(addr_or_kind_spec(d))
            + ": "@ + error,
        ResumeStep::StartDs(_) => "dedicated server: "@ + error,
    }
}

/// The resume error recorded when `step` failed with `error`
/// (e.g. `bridge server: <error>`, `interface "0.0.0.0:4234": <error>`).
pub fn resume_error(step: &ResumeStep, error: &str) -> (r: String)
    ensures
        r@ == resume_error_spec(*step, error@),
{
    let mut out = match step {
        ResumeStep::StartServer(_) => owned("bridge server: "),
        ResumeStep::StartClient(_) => owned("bridge client: "),
        ResumeStep::AttachInterface(d) => {
            let mut head = owned("interface ");
            let name = d.addr_or_kind();
            let quoted = debug_text(name.as_str());
            push_str(&mut head, quoted.as_str());
            push_str(&mut head, ": ");
            head
        },
        ResumeStep::StartDs(_) => owned("dedicated server: "),
    };
    push_str(&mut out, error);
    assert(out@ =~= resume_error_spec(*step, error@));
    out
}

} // verus!
