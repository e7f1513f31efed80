//! The bridge's decisions: which interfaces a node attaches, how engine
//! events are routed to per-Link relays on either side, when a GoldSrc
//! packet opens a new Link, and the discovered-server list the GUI browses.
//!
//! Wire contract: one raw GoldSrc UDP datagram per Reticulum link packet,
//! framed by `crate::framing`. Reticulum supplies encryption, ordering and
//! routing; the sockets and the engine are driven by the caller, which feeds
//! each event to a router here and performs the action it returns.
//!
//! Server side
//! -----------
//!  - Announces `sven-coop.server` regularly.
//!  - For each accepted link, opens a UDP socket to the local Sven Co-op
//!    server and pumps link<->UDP both ways until the link closes.
//!
//! Client side
//! -----------
//!  - Binds 127.0.0.1:<listen port>.
//!  - Discovers `sven-coop.server` via announce (or uses `--server-hash`).
//!  - For each distinct GoldSrc client source addr, opens a link and pumps
//!    UDP<->link both ways until the link closes.
use vstd::prelude::*;
use vstd::string::*;
use vstd::utf8::{
    decode_utf8, encode_utf8, encode_utf8_decode_utf8, encode_utf8_valid_utf8, valid_utf8,
};

use crate::hexcodec::{all_ascii, all_hex, ascii_decode_error, decode_trimmed, hex_decode_spec, HexError};
use crate::config::clone_opt_string;
use crate::text::{
    owned, utf8_text,
    chars_of, last_index_spec, lemma_last_index_bound, parse_uint, parse_uint_spec, rfind_char,
    trim_spec,
};

verus! {

/// A 16-byte Reticulum hash: a destination hash or a link id.
#[derive(Debug, Clone, Copy)]
pub struct Hash16 {
    pub bytes: [u8; 16],
}

/// The hash of a Reticulum destination.
pub type DestinationHash = Hash16;

/// The id of a Reticulum Link.
pub type LinkId = Hash16;

impl Hash16 {
    /// The bytes of the hash.
    pub open spec fn view16(&self) -> Seq<u8> {
        self.bytes@
    }

    /// Whether two hashes are the same bytes.
    pub fn same_as(&self, other: &Hash16) -> (r: bool)
        ensures
            r == (self.view16() == other.view16()),
    {
        let mut i: usize = 0;
        while i < 16
            invariant
                i <= 16,
                self.bytes@.len() == 16,
                other.bytes@.len() == 16,
                self.bytes@.take(i as int) == other.bytes@.take(i as int),
            decreases 16 - i,
        {
            if self.bytes[i] != other.bytes[i] {
                assert(self.bytes@[i as int] != other.bytes@[i as int]);
                return false;
            }
            i = i + 1;
            assert(self.bytes@.take(i as int) =~= self.bytes@.take(i - 1).push(self.bytes@[i - 1]));
            assert(other.bytes@.take(i as int) =~= other.bytes@.take(i - 1).push(
                other.bytes@[i - 1],
            ));
        }
        assert(self.bytes@ =~= self.bytes@.take(16));
        assert(other.bytes@ =~= other.bytes@.take(16));
        true
    }

    /// The hash with exactly the bytes of `bytes`, which must be 16 long
    /// (`DestinationHash::from_slice`).
    pub fn from_slice(bytes: &[u8]) -> (r: Option<Hash16>)
        ensures
            r.is_some() == (bytes@.len() == 16),
            r matches Some(h) ==> h.view16() == bytes@,
    {
        if bytes.len() != 16 {
            return None;
        }
        let h = Hash16 {
            bytes: [
                bytes[0],
                bytes[1],
                bytes[2],
                bytes[3],
                bytes[4],
                bytes[5],
                bytes[6],
                bytes[7],
                bytes[8],
                bytes[9],
                bytes[10],
                bytes[11],
                bytes[12],
                bytes[13],
                bytes[14],
                bytes[15],
            ],
        };
        assert(h.bytes@ =~= bytes@);
        Some(h)
    }
}

/// Why a `--server-hash` did not parse.
#[derive(Debug, Clone, Copy, PartialEq, Eq, Structural)]
pub enum ServerHashError {
    /// The text is not hex: "invalid hex in --server-hash: <error>".
    InvalidHex(HexError),
    /// The hex is not 16 bytes: "--server-hash must be 16 bytes (32 hex chars)".
    WrongLength,
}

/// The hash a `--server-hash` argument names: its trimmed text is 32 hex
/// digits, decoded pairwise.
pub open spec fn server_hash_spec(text: Seq<char>) -> Option<Seq<u8>> {
    let t = trim_spec(text);
    if all_hex(t) && t.len() == 32 {
        Some(hex_decode_spec(t))
    } else {
        None
    }
}

/// Parse a `--server-hash` argument: surrounding whitespace is ignored, the
/// rest must be hex for exactly 16 bytes.
pub fn parse_destination_hash(hex: &str) -> (r: Result<DestinationHash, ServerHashError>)
    ensures
        match r {
            Ok(h) => server_hash_spec(hex@) == Some(h.view16()),
            Err(e) => server_hash_spec(hex@) is None && (e is WrongLength <==> (all_hex(
                trim_spec(hex@),
            ) && trim_spec(hex@).len() % 2 == 0)) && (e matches ServerHashError::InvalidHex(h)
                ==> (all_ascii(trim_spec(hex@)) ==> h == ascii_decode_error(trim_spec(hex@)))),
        },
{
    let ghost t = trim_spec(hex@);
    match decode_trimmed(hex) {
        Err(e) => Err(ServerHashError::InvalidHex(e)),
        Ok(bytes) => {
            assert(bytes@.len() == t.len() / 2);
            match Hash16::from_slice(bytes.as_slice()) {
                Some(h) => Ok(h),
                None => Err(ServerHashError::WrongLength),
            }
        },
    }
}

/// A discovered `sven-coop.server` destination heard via announce.
#[derive(Debug, Clone)]
pub struct DiscoveredServer {
    pub destination_hash: DestinationHash,
    /// When the last announce was heard, on the caller's monotonic clock.
    pub last_seen: u64,
    /// The display name the announce carried, if any.
    pub name: Option<String>,
}

/// The index of the first server in `list` with hash `dest` (-1 if none).
pub open spec fn server_index(list: Seq<DiscoveredServer>, dest: Seq<u8>) -> int
    decreases list.len(),
{
    if list.len() == 0 {
        -1
    } else if list[0].destination_hash.view16() == dest {
        0
    } else {
        let j = server_index(list.drop_first(), dest);
        if j < 0 {
            -1
        } else {
            j + 1
        }
    }
}

/// The browser list after an announce from `dest` heard at `now`: a known
/// server gets its `last_seen` refreshed; a new one is appended.
pub open spec fn remember_spec(
    list: Seq<DiscoveredServer>,
    dest: DestinationHash,
    now: u64,
    name: Option<String>,
) -> Seq<DiscoveredServer> {
    let i = server_index(list, dest.view16());
    if i >= 0 {
        list.update(i, DiscoveredServer { last_seen: now, ..list[i] })
    } else {
        list.push(DiscoveredServer { destination_hash: dest, last_seen: now, name })
    }
}

/// Whether no two servers in `list` share a destination hash.
pub open spec fn hashes_unique(list: Seq<DiscoveredServer>) -> bool {
    forall|i: int, j: int|
        0 <= i < j < list.len() ==> #[trigger] list[i].destination_hash.view16()
            != #[trigger] list[j].destination_hash.view16()
}

proof fn lemma_server_index(list: Seq<DiscoveredServer>, dest: Seq<u8>)
    ensures
        -1 <= server_index(list, dest) < list.len(),
        server_index(list, dest) >= 0 ==> list[server_index(list, dest)].destination_hash.view16()
            == dest,
        forall|k: int|
            0 <= k < list.len() && (server_index(list, dest) < 0 || k < server_index(list, dest))
                ==> #[trigger] list[k].destination_hash.view16() != dest,
    decreases list.len(),
{
    if list.len() > 0 && list[0].destination_hash.view16() != dest {
        lemma_server_index(list.drop_first(), dest);
        assert forall|k: int|
            0 <= k < list.len() && (server_index(list, dest) < 0 || k < server_index(list, dest))
                implies #[trigger] list[k].destination_hash.view16() != dest by {
            if k > 0 {
                assert(list[k] == list.drop_first()[k - 1]);
            }
        }
    }
}

proof fn lemma_server_index_of_prefix(list: Seq<DiscoveredServer>, dest: Seq<u8>, i: int)
    requires
        0 <= i <= list.len(),
        forall|k: int| 0 <= k < i ==> #[trigger] list[k].destination_hash.view16() != dest,
    ensures
        i < list.len() && list[i].destination_hash.view16() == dest ==> server_index(list, dest)
            == i,
        i == list.len() ==> server_index(list, dest) == -1,
    decreases i,
{
    if i > 0 {
        let rest = list.drop_first();
        assert forall|k: int| 0 <= k < i - 1 implies #[trigger] rest[k].destination_hash.view16()
            != dest by {
            assert(rest[k] == list[k + 1]);
        }
        assert(list[0].destination_hash.view16() != dest);
        lemma_server_index_of_prefix(rest, dest, i - 1);
        if i < list.len() {
            assert(rest[i - 1] == list[i]);
        }
    }
}

/// Insert or refresh a discovered server in the browser list (dedup by hash).
pub fn remember_server(
    list: &mut Vec<DiscoveredServer>,
    destination: DestinationHash,
    now: u64,
    name: Option<String>,
)
    ensures
        final(list)@ == remember_spec(old(list)@, destination, now, name),
{
    let mut i: usize = 0;
    let n = list.len();
    while i < n
        invariant
            n == list@.len(),
            list@ == old(list)@,
            i <= n,
            forall|k: int| 0 <= k < i ==> #[trigger] list@[k].destination_hash.view16()
                != destination.view16(),
        decreases n - i,
    {
        if list[i].destination_hash.same_as(&destination) {
            proof {
                lemma_server_index_of_prefix(list@, destination.view16(), i as int);
            }
            let refreshed = DiscoveredServer {
                destination_hash: list[i].destination_hash,
                last_seen: now,
                name: clone_opt_string(&list[i].name),
            };
            list.set(i, refreshed);
            return ;
        }
        i = i + 1;
    }
    proof {
        lemma_server_index_of_prefix(list@, destination.view16(), n as int);
    }
    list.push(DiscoveredServer { destination_hash: destination, last_seen: now, name });
}

/// Law: the browser list never holds two entries for one server, and after
/// an announce the server it came from is listed with the announce's time;
/// every other entry is left as it was.
pub proof fn remember_keeps_servers_unique(
    list: Seq<DiscoveredServer>,
    dest: DestinationHash,
    now: u64,
    name: Option<String>,
)
    requires
        hashes_unique(list),
    ensures
        hashes_unique(remember_spec(list, dest, now, name)),
        ({
            let after = remember_spec(list, dest, now, name);
            let i = server_index(after, dest.view16());
            &&& 0 <= i < after.len()
            &&& after[i].last_seen == now
        }),
        remember_spec(list, dest, now, name).len() <= list.len() + 1,
        forall|k: int|
            0 <= k < list.len() && list[k].destination_hash.view16() != dest.view16()
                ==> #[trigger] remember_spec(list, dest, now, name)[k] == list[k],
{
    lemma_server_index(list, dest.view16());
    let after = remember_spec(list, dest, now, name);
    let i = server_index(list, dest.view16());
    if i >= 0 {
        assert forall|a: int, b: int| 0 <= a < b < after.len() implies #[trigger] after[a].destination_hash.view16()
            != #[trigger] after[b].destination_hash.view16() by {
            assert(after[a].destination_hash == list[a].destination_hash);
            assert(after[b].destination_hash == list[b].destination_hash);
        }
        lemma_server_index_of_prefix(after, dest.view16(), i);
    } else {
        assert forall|a: int, b: int| 0 <= a < b < after.len() implies #[trigger] after[a].destination_hash.view16()
            != #[trigger] after[b].destination_hash.view16() by {
            if b == list.len() {
                assert(after[a] == list[a]);
            } else {
                assert(after[a] == list[a]);
                assert(after[b] == list[b]);
            }
        }
        assert forall|k: int| 0 <= k < list.len() implies #[trigger] after[k].destination_hash.view16()
            != dest.view16() by {
            assert(after[k] == list[k]);
        }
        lemma_server_index_of_prefix(after, dest.view16(), list.len() as int);
    }
}

/// The address a GoldSrc client sent from: its IP (IPv4 as an IPv4-mapped
/// IPv6 address) and UDP port.
#[derive(Debug, Clone, Copy)]
pub struct PeerAddr {
    pub ip: [u8; 16],
    pub port: u16,
}

impl PeerAddr {
    /// The address as plain values.
    pub open spec fn view_addr(&self) -> (Seq<u8>, u16) {
        (self.ip@, self.port)
    }

    /// Whether two addresses are the same.
    pub fn same_as(&self, other: &PeerAddr) -> (r: bool)
        ensures
            r == (self.view_addr() == other.view_addr()),
    {
        let a = Hash16 { bytes: self.ip };
        let b = Hash16 { bytes: other.ip };
        a.same_as(&b) && self.port == other.port
    }
}

/// The byte contents of each hash in `v`.
pub open spec fn hash_views(v: Seq<Hash16>) -> Seq<Seq<u8>> {
    v.map_values(|h: Hash16| h.view16())
}

/// The plain value of each address in `v`.
pub open spec fn addr_views(v: Seq<PeerAddr>) -> Seq<(Seq<u8>, u16)> {
    v.map_values(|a: PeerAddr| a.view_addr())
}

/// `s` without its elements equal to `x`.
pub open spec fn without<A>(s: Seq<A>, x: A) -> Seq<A> {
    s.filter(|y: A| y != x)
}

fn position_of_hash(v: &Vec<Hash16>, h: &Hash16) -> (r: Option<usize>)
    ensures
        match r {
            Some(i) => i < v@.len() && v@[i as int].view16() == h.view16(),
            None => !hash_views(v@).contains(h.view16()),
        },
{
    let mut i: usize = 0;
    while i < v.len()
        invariant
            i <= v@.len(),
            forall|k: int| 0 <= k < i ==> #[trigger] v@[k].view16() != h.view16(),
        decreases v@.len() - i,
    {
        if v[i].same_as(h) {
            return Some(i);
        }
        i = i + 1;
    }
    proof {
        if hash_views(v@).contains(h.view16()) {
            let k = choose|k: int| 0 <= k < hash_views(v@).len() && hash_views(v@)[k] == h.view16();
            assert(v@[k].view16() == h.view16());
        }
    }
    None
}

fn position_of_addr(v: &Vec<PeerAddr>, a: &PeerAddr) -> (r: Option<usize>)
    ensures
        match r {
            Some(i) => i < v@.len() && v@[i as int].view_addr() == a.view_addr(),
            None => !addr_views(v@).contains(a.view_addr()),
        },
{
    let mut i: usize = 0;
    while i < v.len()
        invariant
            i <= v@.len(),
            forall|k: int| 0 <= k < i ==> #[trigger] v@[k].view_addr() != a.view_addr(),
        decreases v@.len() - i,
    {
        if v[i].same_as(a) {
            return Some(i);
        }
        i = i + 1;
    }
    proof {
        if addr_views(v@).contains(a.view_addr()) {
            let k = choose|k: int| 0 <= k < addr_views(v@).len() && addr_views(v@)[k] == a.view_addr();
            assert(v@[k].view_addr() == a.view_addr());
        }
    }
    None
}

proof fn lemma_remove_unique<A>(s: Seq<A>, i: int)
    requires
        s.no_duplicates(),
        0 <= i < s.len(),
    ensures
        s.remove(i) == without(s, s[i]),
        s.remove(i).no_duplicates(),
{
    let x = s[i];
    let r = s.remove(i);
    assert(r.no_duplicates()) by {
        assert forall|a: int, b: int| 0 <= a < r.len() && 0 <= b < r.len() && a != b implies r[a]
            != r[b] by {
            let a2 = if a < i {
                a
            } else {
                a + 1
            };
            let b2 = if b < i {
                b
            } else {
                b + 1
            };
            assert(r[a] == s[a2]);
            assert(r[b] == s[b2]);
        }
    }
    lemma_filter_skips_one(s, i);
}

proof fn lemma_filter_skips_one<A>(s: Seq<A>, i: int)
    requires
        s.no_duplicates(),
        0 <= i < s.len(),
    ensures
        s.remove(i) == without(s, s[i]),
    decreases s.len(),
{
    let x = s[i];
    reveal(Seq::filter);
    if i == s.len() - 1 {
        assert(s.remove(i) =~= s.drop_last());
        assert forall|k: int| 0 <= k < s.drop_last().len() implies #[trigger] s.drop_last()[k]
            != x by {
            assert(s[k] != s[i]);
        }
        lemma_filter_keeps_all(s.drop_last(), x);
        assert(without(s, x) == without(s.drop_last(), x));
    } else {
        let t = s.drop_last();
        assert(t.no_duplicates()) by {
            assert forall|a: int, b: int| 0 <= a < t.len() && 0 <= b < t.len() && a != b implies t[a]
                != t[b] by {
                assert(t[a] == s[a]);
                assert(t[b] == s[b]);
            }
        }
        assert(t[i] == x);
        lemma_filter_skips_one(t, i);
        assert(s.last() != x);
        assert(s.remove(i) =~= t.remove(i).push(s.last()));
        assert(without(s, x) == without(t, x).push(s.last()));
    }
}

proof fn lemma_filter_keeps_all<A>(s: Seq<A>, x: A)
    requires
        forall|k: int| 0 <= k < s.len() ==> #[trigger] s[k] != x,
    ensures
        without(s, x) == s,
    decreases s.len(),
{
    reveal(Seq::filter);
    if s.len() > 0 {
        lemma_filter_keeps_all(s.drop_last(), x);
        assert(s.drop_last().push(s.last()) =~= s);
    } else {
        assert(without(s, x) =~= s);
    }
}

/// What a bridge node reports to its router.
#[derive(Debug)]
pub enum BridgeEvent {
    /// A `sven-coop.server` announce was heard, with the name it carried.
    AnnounceHeard { destination: DestinationHash, name: Option<String> },
    /// A Link came up.
    LinkEstablished { link_id: LinkId },
    /// A Link went down.
    LinkClosed { link_id: LinkId },
    /// A chunk arrived on a Link.
    LinkData { link_id: LinkId, bytes: Vec<u8> },
}

/// What the server-side router asks the caller to do.
#[derive(Debug)]
pub enum ServerAction {
    /// Nothing.
    Nothing,
    /// Open a UDP socket to the Sven Co-op server and relay this Link over it.
    StartRelay { link_id: LinkId },
    /// End this Link's relay: send it an empty chunk.
    EndRelay { link_id: LinkId },
    /// Hand the chunk to this Link's relay.
    Forward { link_id: LinkId, bytes: Vec<u8> },
    /// No relay owns this Link; the chunk is dropped.
    DropUnknown { link_id: LinkId },
}

/// The server router's state: the Links with a relay, and the browser list.
pub struct ServerState {
    pub relays: Seq<Seq<u8>>,
    pub discovered: Seq<DiscoveredServer>,
}

/// One event through the server-side router: the next state and the action.
pub open spec fn server_step(s: ServerState, event: BridgeEvent, now: u64) -> (ServerState, ServerAction) {
    match event {
        BridgeEvent::AnnounceHeard { destination, name } => (
            ServerState {
                discovered: remember_spec(s.discovered, destination, now, name),
                ..s
            },
            ServerAction::Nothing,
        ),
        BridgeEvent::LinkEstablished { link_id } => if s.relays.contains(link_id.view16()) {
            (s, ServerAction::Nothing)
        } else {
            (
                ServerState { relays: s.relays.push(link_id.view16()), ..s },
                ServerAction::StartRelay { link_id },
            )
        },
        BridgeEvent::LinkClosed { link_id } => if s.relays.contains(link_id.view16()) {
            (
                ServerState { relays: without(s.relays, link_id.view16()), ..s },
                ServerAction::EndRelay { link_id },
            )
        } else {
            (s, ServerAction::Nothing)
        },
        BridgeEvent::LinkData { link_id, bytes } => if s.relays.contains(link_id.view16()) {
            (s, ServerAction::Forward { link_id, bytes })
        } else {
            (s, ServerAction::DropUnknown { link_id })
        },
    }
}

/// Whether a router state is sound: no Link has two relays and no server is
/// listed twice.
pub open spec fn server_state_wf(s: ServerState) -> bool {
    s.relays.no_duplicates() && hashes_unique(s.discovered)
}

/// The server-side event router: one relay per accepted Link, chunks to the
/// Link's relay, and the browser list of servers heard.
pub struct ServerRouter {
    relays: Vec<LinkId>,
    discovered: Vec<DiscoveredServer>,
}

impl ServerRouter {
    /// The router's state.
    pub closed spec fn state(&self) -> ServerState {
        ServerState { relays: hash_views(self.relays@), discovered: self.discovered@ }
    }

    /// The router's invariant: no Link has two relays and no server is listed
    /// twice.
    pub open spec fn wf(&self) -> bool {
        server_state_wf(self.state())
    }

    /// A router with no relays and no servers heard.
    pub fn new() -> (r: Self)
        ensures
            r.wf(),
            r.state().relays == Seq::<Seq<u8>>::empty(),
            r.state().discovered == Seq::<DiscoveredServer>::empty(),
    {
        let r = ServerRouter { relays: Vec::new(), discovered: Vec::new() };
        assert(hash_views(r.relays@) =~= Seq::<Seq<u8>>::empty());
        r
    }

    /// The servers heard so far (the browser list).
    pub fn discovered(&self) -> (r: &Vec<DiscoveredServer>)
        ensures
            r@ == self.state().discovered,
    {
        &self.discovered
    }

    /// Route one engine event heard at `now`.
    pub fn route(&mut self, event: BridgeEvent, now: u64) -> (r: ServerAction)
        requires
            old(self).wf(),
        ensures
            final(self).wf(),
            (final(self).state(), r) == server_step(old(self).state(), event, now),
    {
        let ghost s0 = self.state();
        match event {
            BridgeEvent::AnnounceHeard { destination, name } => {
                proof {
                    remember_keeps_servers_unique(self.discovered@, destination, now, name);
                }
                remember_server(&mut self.discovered, destination, now, name);
                ServerAction::Nothing
            },
            BridgeEvent::LinkEstablished { link_id } => {
                match position_of_hash(&self.relays, &link_id) {
                    Some(i) => {
                        assert(hash_views(self.relays@)[i as int] == link_id.view16());
                        ServerAction::Nothing
                    },
                    None => {
                        self.relays.push(link_id);
                        assert(hash_views(self.relays@) =~= s0.relays.push(link_id.view16()));
                        ServerAction::StartRelay { link_id }
                    },
                }
            },
            BridgeEvent::LinkClosed { link_id } => {
                match position_of_hash(&self.relays, &link_id) {
                    Some(i) => {
                        let ghost hv = hash_views(self.relays@);
                        assert(hv[i as int] == link_id.view16());
                        self.relays.remove(i);
                        proof {
                            lemma_remove_unique(hv, i as int);
                            assert(hash_views(self.relays@) =~= hv.remove(i as int));
                        }
                        ServerAction::EndRelay { link_id }
                    },
                    None => ServerAction::Nothing,
                }
            },
            BridgeEvent::LinkData { link_id, bytes } => {
                match position_of_hash(&self.relays, &link_id) {
                    Some(i) => {
                        assert(hash_views(self.relays@)[i as int] == link_id.view16());
                        ServerAction::Forward { link_id, bytes }
                    },
                    None => ServerAction::DropUnknown { link_id },
                }
            },
        }
    }

    /// A Link's relay finished (its UDP socket failed or the Link closed):
    /// forget it.
    pub fn relay_ended(&mut self, link_id: LinkId)
        requires
            old(self).wf(),
        ensures
            final(self).wf(),
            final(self).state().relays == without(old(self).state().relays, link_id.view16()),
            final(self).state().discovered == old(self).state().discovered,
    {
        match position_of_hash(&self.relays, &link_id) {
            Some(i) => {
                let ghost hv = hash_views(self.relays@);
                self.relays.remove(i);
                proof {
                    lemma_remove_unique(hv, i as int);
                    assert(hash_views(self.relays@) =~= hv.remove(i as int));
                }
            },
            None => {
                proof {
                    let hv = hash_views(self.relays@);
                    assert forall|k: int| 0 <= k < hv.len() implies #[trigger] hv[k]
                        != link_id.view16() by {
                        assert(hv.contains(hv[k]));
                    }
                    lemma_filter_keeps_all(hv, link_id.view16());
                }
            },
        }
    }
}

/// What the client-side router asks the caller to do.
#[derive(Debug)]
pub enum ClientAction {
    /// Nothing.
    Nothing,
    /// The first server heard: from now on new GoldSrc clients are linked to it.
    TargetDiscovered { destination: DestinationHash },
    /// Hand the chunk to this Link's relay.
    Forward { link_id: LinkId, bytes: Vec<u8> },
    /// No relay owns this Link; the chunk is dropped.
    DropUnknown { link_id: LinkId },
}

/// What to do with a datagram from a GoldSrc client.
#[derive(Debug)]
pub enum PacketAction {
    /// The sender already has a Link: hand the datagram to its relay.
    ToPeerLink,
    /// No server is known yet: drop the datagram.
    NoServerYet,
    /// Open a Link to this server for the sender, then relay over it.
    OpenLink { target: DestinationHash },
}

/// The client router's state: the server new Links go to, the Links and
/// GoldSrc senders with a relay, and the browser list.
pub struct ClientState {
    pub target: Option<DestinationHash>,
    pub links: Seq<Seq<u8>>,
    pub peers: Seq<(Seq<u8>, u16)>,
    pub discovered: Seq<DiscoveredServer>,
}

/// One engine event through the client-side router.
pub open spec fn client_step(s: ClientState, event: BridgeEvent, now: u64) -> (ClientState, ClientAction) {
    match event {
        BridgeEvent::AnnounceHeard { destination, name } => {
            let discovered = remember_spec(s.discovered, destination, now, name);
            if s.target is None {
                (
                    ClientState { target: Some(destination), discovered, ..s },
                    ClientAction::TargetDiscovered { destination },
                )
            } else {
                (ClientState { discovered, ..s }, ClientAction::Nothing)
            }
        },
        BridgeEvent::LinkEstablished { .. } => (s, ClientAction::Nothing),
        BridgeEvent::LinkClosed { link_id } => (
            ClientState { links: without(s.links, link_id.view16()), ..s },
            ClientAction::Nothing,
        ),
        BridgeEvent::LinkData { link_id, bytes } => if s.links.contains(link_id.view16()) {
            (s, ClientAction::Forward { link_id, bytes })
        } else {
            (s, ClientAction::DropUnknown { link_id })
        },
    }
}

/// What a datagram from `src` leads to.
pub open spec fn packet_spec(s: ClientState, src: PeerAddr) -> PacketAction {
    if s.peers.contains(src.view_addr()) {
        PacketAction::ToPeerLink
    } else {
        match s.target {
            None => PacketAction::NoServerYet,
            Some(t) => PacketAction::OpenLink { target: t },
        }
    }
}

/// Whether a client router state is sound: no Link, sender or server twice.
pub open spec fn client_state_wf(s: ClientState) -> bool {
    s.links.no_duplicates() && s.peers.no_duplicates() && hashes_unique(s.discovered)
}

/// The client-side router: picks the server to connect to, keeps one Link per
/// GoldSrc sender, routes chunks to Link relays, and lists servers heard.
pub struct ClientRouter {
    target: Option<DestinationHash>,
    links: Vec<LinkId>,
    peers: Vec<PeerAddr>,
    discovered: Vec<DiscoveredServer>,
}

impl ClientRouter {
    /// The router's state.
    pub closed spec fn state(&self) -> ClientState {
        ClientState {
            target: self.target,
            links: hash_views(self.links@),
            peers: addr_views(self.peers@),
            discovered: self.discovered@,
        }
    }

    /// The router's invariant: no Link, sender or server twice.
    pub open spec fn wf(&self) -> bool {
        client_state_wf(self.state())
    }

    /// A router aimed at `target` (an explicit `--server-hash`), or at the
    /// first server heard when `None`.
    pub fn new(target: Option<DestinationHash>) -> (r: Self)
        ensures
            r.wf(),
            r.state().target == target,
            r.state().links == Seq::<Seq<u8>>::empty(),
            r.state().peers == Seq::<(Seq<u8>, u16)>::empty(),
            r.state().discovered == Seq::<DiscoveredServer>::empty(),
    {
        let r = ClientRouter {
            target,
            links: Vec::new(),
            peers: Vec::new(),
            discovered: Vec::new(),
        };
        assert(hash_views(r.links@) =~= Seq::<Seq<u8>>::empty());
        assert(addr_views(r.peers@) =~= Seq::<(Seq<u8>, u16)>::empty());
        r
    }

    /// The server new Links go to, if one is known.
    pub fn target(&self) -> (r: Option<DestinationHash>)
        ensures
            r == self.state().target,
    {
        self.target
    }

    /// The servers heard so far (the browser list).
    pub fn discovered(&self) -> (r: &Vec<DiscoveredServer>)
        ensures
            r@ == self.state().discovered,
    {
        &self.discovered
    }

    /// Route one engine event heard at `now`.
    pub fn route(&mut self, event: BridgeEvent, now: u64) -> (r: ClientAction)
        requires
            old(self).wf(),
        ensures
            final(self).wf(),
            (final(self).state(), r) == client_step(old(self).state(), event, now),
    {
        let ghost s0 = self.state();
        match event {
            BridgeEvent::AnnounceHeard { destination, name } => {
                proof {
                    remember_keeps_servers_unique(self.discovered@, destination, now, name);
                }
                remember_server(&mut self.discovered, destination, now, name);
                if self.target.is_none() {
                    self.target = Some(destination);
                    ClientAction::TargetDiscovered { destination }
                } else {
                    ClientAction::Nothing
                }
            },
            BridgeEvent::LinkEstablished { .. } => ClientAction::Nothing,
            BridgeEvent::LinkClosed { link_id } => {
                remove_hash(&mut self.links, &link_id);
                ClientAction::Nothing
            },
            BridgeEvent::LinkData { link_id, bytes } => {
                match position_of_hash(&self.links, &link_id) {
                    Some(i) => {
                        assert(hash_views(self.links@)[i as int] == link_id.view16());
                        ClientAction::Forward { link_id, bytes }
                    },
                    None => ClientAction::DropUnknown { link_id },
                }
            },
        }
    }

    /// What to do with a datagram that arrived from `src`.
    pub fn on_packet(&self, src: &PeerAddr) -> (r: PacketAction)
        ensures
            r == packet_spec(self.state(), *src),
    {
        match position_of_addr(&self.peers, src) {
            Some(i) => {
                assert(addr_views(self.peers@)[i as int] == src.view_addr());
                PacketAction::ToPeerLink
            },
            None => match self.target {
                None => PacketAction::NoServerYet,
                Some(t) => PacketAction::OpenLink { target: t },
            },
        }
    }

    /// A Link for `src` is up: later datagrams from `src` go to its relay.
    pub fn peer_attached(&mut self, src: PeerAddr)
        requires
            old(self).wf(),
        ensures
            final(self).wf(),
            final(self).state() == (ClientState {
                peers: if old(self).state().peers.contains(src.view_addr()) {
                    old(self).state().peers
                } else {
                    old(self).state().peers.push(src.view_addr())
                },
                ..old(self).state()
            }),
    {
        match position_of_addr(&self.peers, &src) {
            Some(i) => {
                assert(addr_views(self.peers@)[i as int] == src.view_addr());
            },
            None => {
                let ghost before = addr_views(self.peers@);
                self.peers.push(src);
                assert(addr_views(self.peers@) =~= before.push(src.view_addr()));
            },
        }
    }

    /// The first datagram went out on `link_id`: its chunks from now on go to
    /// the relay.
    pub fn link_attached(&mut self, link_id: LinkId)
        requires
            old(self).wf(),
        ensures
            final(self).wf(),
            final(self).state() == (ClientState {
                links: if old(self).state().links.contains(link_id.view16()) {
                    old(self).state().links
                } else {
                    old(self).state().links.push(link_id.view16())
                },
                ..old(self).state()
            }),
    {
        match position_of_hash(&self.links, &link_id) {
            Some(i) => {
                assert(hash_views(self.links@)[i as int] == link_id.view16());
            },
            None => {
                let ghost before = hash_views(self.links@);
                self.links.push(link_id);
                assert(hash_views(self.links@) =~= before.push(link_id.view16()));
            },
        }
    }

    /// Handing a datagram to `src`'s relay failed: forget the sender, so its
    /// next datagram opens a fresh Link.
    pub fn peer_gone(&mut self, src: &PeerAddr)
        requires
            old(self).wf(),
        ensures
            final(self).wf(),
            final(self).state() == (ClientState {
                peers: without(old(self).state().peers, src.view_addr()),
                ..old(self).state()
            }),
    {
        remove_addr(&mut self.peers, src);
    }

    /// The relay of `src` over `link_id` ended: forget both.
    pub fn relay_ended(&mut self, src: &PeerAddr, link_id: &LinkId)
        requires
            old(self).wf(),
        ensures
            final(self).wf(),
            final(self).state() == (ClientState {
                peers: without(old(self).state().peers, src.view_addr()),
                links: without(old(self).state().links, link_id.view16()),
                ..old(self).state()
            }),
    {
        remove_hash(&mut self.links, link_id);
        remove_addr(&mut self.peers, src);
    }
}

fn remove_hash(v: &mut Vec<Hash16>, h: &Hash16)
    requires
        hash_views(old(v)@).no_duplicates(),
    ensures
        hash_views(final(v)@) == without(hash_views(old(v)@), h.view16()),
        hash_views(final(v)@).no_duplicates(),
{
    match position_of_hash(v, h) {
        Some(i) => {
            let ghost hv = hash_views(v@);
            v.remove(i);
            proof {
                lemma_remove_unique(hv, i as int);
                assert(hash_views(v@) =~= hv.remove(i as int));
            }
        },
        None => {
            proof {
                let hv = hash_views(v@);
                assert forall|k: int| 0 <= k < hv.len() implies #[trigger] hv[k] != h.view16() by {
                    assert(hv.contains(hv[k]));
                }
                lemma_filter_keeps_all(hv, h.view16());
            }
        },
    }
}

fn remove_addr(v: &mut Vec<PeerAddr>, a: &PeerAddr)
    requires
        addr_views(old(v)@).no_duplicates(),
    ensures
        addr_views(final(v)@) == without(addr_views(old(v)@), a.view_addr()),
        addr_views(final(v)@).no_duplicates(),
{
    match position_of_addr(v, a) {
        Some(i) => {
            let ghost av = addr_views(v@);
            v.remove(i);
            proof {
                lemma_remove_unique(av, i as int);
                assert(addr_views(v@) =~= av.remove(i as int));
            }
        },
        None => {
            proof {
                let av = addr_views(v@);
                assert forall|k: int| 0 <= k < av.len() implies #[trigger] av[k] != a.view_addr() by {
                    assert(av.contains(av[k]));
                }
                lemma_filter_keeps_all(av, a.view_addr());
            }
        },
    }
}

proof fn lemma_without_not_contains<A>(s: Seq<A>, x: A)
    ensures
        !without(s, x).contains(x),
{
    let w = without(s, x);
    if w.contains(x) {
        let k = choose|k: int| 0 <= k < w.len() && w[k] == x;
        s.lemma_filter_pred(|y: A| y != x, k);
    }
}

proof fn lemma_without_no_duplicates<A>(s: Seq<A>, x: A)
    requires
        s.no_duplicates(),
    ensures
        without(s, x).no_duplicates(),
{
    if s.contains(x) {
        let i = choose|i: int| 0 <= i < s.len() && s[i] == x;
        lemma_remove_unique(s, i);
    } else {
        assert forall|k: int| 0 <= k < s.len() implies #[trigger] s[k] != x by {
            if s[k] == x {
                assert(s.contains(x));
            }
        }
        lemma_filter_keeps_all(s, x);
    }
}

/// Law: every event keeps the server router sound: no Link gets a second
/// relay and no server is listed twice.
pub proof fn server_step_keeps_wf(s: ServerState, event: BridgeEvent, now: u64)
    requires
        server_state_wf(s),
    ensures
        server_state_wf(server_step(s, event, now).0),
{
    match event {
        BridgeEvent::AnnounceHeard { destination, name } => {
            remember_keeps_servers_unique(s.discovered, destination, now, name);
        },
        BridgeEvent::LinkClosed { link_id } => {
            lemma_without_no_duplicates(s.relays, link_id.view16());
        },
        _ => {},
    }
}

/// Law: a Link reported established twice gets one relay: the second report
/// changes nothing.
pub proof fn duplicate_establish_starts_one_relay(s: ServerState, link_id: LinkId, now: u64)
    ensures
        ({
            let (s1, _) = server_step(s, BridgeEvent::LinkEstablished { link_id }, now);
            let (s2, a2) = server_step(s1, BridgeEvent::LinkEstablished { link_id }, now);
            &&& s1.relays.contains(link_id.view16())
            &&& s2 == s1
            &&& a2 is Nothing
        }),
{
    let (s1, _) = server_step(s, BridgeEvent::LinkEstablished { link_id }, now);
    if !s.relays.contains(link_id.view16()) {
        assert(s1.relays[s1.relays.len() - 1] == link_id.view16());
    }
}

/// Law: once a Link is closed, chunks that still arrive for it are dropped
/// rather than handed to a relay.
pub proof fn closed_link_data_is_dropped(s: ServerState, link_id: LinkId, bytes: Vec<u8>, now: u64)
    ensures
        ({
            let (s1, _) = server_step(s, BridgeEvent::LinkClosed { link_id }, now);
            let (_, a) = server_step(s1, BridgeEvent::LinkData { link_id, bytes }, now);
            a is DropUnknown
        }),
{
    lemma_without_not_contains(s.relays, link_id.view16());
}

/// Law: every event keeps the client router sound.
pub proof fn client_step_keeps_wf(s: ClientState, event: BridgeEvent, now: u64)
    requires
        client_state_wf(s),
    ensures
        client_state_wf(client_step(s, event, now).0),
{
    match event {
        BridgeEvent::AnnounceHeard { destination, name } => {
            remember_keeps_servers_unique(s.discovered, destination, now, name);
        },
        BridgeEvent::LinkClosed { link_id } => {
            lemma_without_no_duplicates(s.links, link_id.view16());
        },
        _ => {},
    }
}

/// Law: the client dials the first server it hears (or the one it was told):
/// once a target is set, no event changes it.
pub proof fn client_target_is_sticky(s: ClientState, event: BridgeEvent, now: u64)
    requires
        s.target is Some,
    ensures
        client_step(s, event, now).0.target == s.target,
{
}

/// Law: with no target yet, the first announce heard becomes the target and
/// is reported, and a GoldSrc client without a Link is then linked to it.
pub proof fn first_announce_becomes_target(
    s: ClientState,
    destination: DestinationHash,
    name: Option<String>,
    now: u64,
    src: PeerAddr,
)
    requires
        s.target is None,
    ensures
        ({
            let (s1, a) = client_step(s, BridgeEvent::AnnounceHeard { destination, name }, now);
            &&& s1.target == Some(destination)
            &&& a == ClientAction::TargetDiscovered { destination }
            &&& packet_spec(s1, src) is ToPeerLink || packet_spec(s1, src)
                == PacketAction::OpenLink { target: destination }
        }),
{
}

/// Law: each GoldSrc sender gets a Link of its own: once a sender's Link is
/// attached its datagrams go to that Link, and what another sender's
/// datagram leads to is unchanged.
pub proof fn senders_get_their_own_links(s: ClientState, src: PeerAddr, other: PeerAddr)
    requires
        other.view_addr() != src.view_addr(),
    ensures
        ({
            let after = ClientState {
                peers: if s.peers.contains(src.view_addr()) {
                    s.peers
                } else {
                    s.peers.push(src.view_addr())
                },
                ..s
            };
            &&& packet_spec(after, src) is ToPeerLink
            &&& packet_spec(after, other) == packet_spec(s, other)
        }),
{
    let pushed = s.peers.push(src.view_addr());
    assert(pushed[s.peers.len() as int] == src.view_addr());
    if !s.peers.contains(src.view_addr()) {
        if pushed.contains(other.view_addr()) {
            let k = choose|k: int| 0 <= k < pushed.len() && pushed[k] == other.view_addr();
            assert(k < s.peers.len());
            assert(s.peers[k] == other.view_addr());
        }
        if s.peers.contains(other.view_addr()) {
            let k = choose|k: int| 0 <= k < s.peers.len() && s.peers[k] == other.view_addr();
            assert(pushed[k] == other.view_addr());
        }
    }
}

/// Law: when a GoldSrc client's relay ends (its Link closed or its socket
/// failed), that client's next datagram opens a fresh Link to the target
/// instead of going to the old one.
pub proof fn ended_relay_reopens_link(s: ClientState, src: PeerAddr, link_id: LinkId)
    requires
        s.target is Some,
    ensures
        packet_spec(
            (ClientState {
                peers: without(s.peers, src.view_addr()),
                links: without(s.links, link_id.view16()),
                ..s
            }),
            src,
        ) == (PacketAction::OpenLink { target: s.target->0 }),
{
    lemma_without_not_contains(s.peers, src.view_addr());
}

/// How a `--tcp` address is attached.
#[derive(Debug, Clone, Copy, PartialEq, Eq, Structural)]
pub enum TcpPlan {
    /// `0.0.0.0:PORT` or `:PORT`: bind a TCP server interface there.
    BindServer,
    /// `<host>:PORT` with a port above zero: connect as a TCP client.
    ConnectClient,
    /// A host with a port that is zero or not a number: nothing is attached.
    Skip,
    /// No `:` at all: the address is ignored with a warning.
    MissingPort,
}

/// How the characters of a `--tcp` address are attached.
pub open spec fn tcp_plan_spec(addr: Seq<char>) -> TcpPlan {
    match last_index_spec(addr, ':') {
        None => TcpPlan::MissingPort,
        Some(colon) => {
            let host = addr.take(colon as int);
            let port = match parse_uint_spec(addr.skip(colon + 1 as int), 65535) {
                Some(p) => p,
                None => 0,
            };
            if host == "0.0.0.0"@ || host.len() == 0 {
                TcpPlan::BindServer
            } else if port > 0 {
                TcpPlan::ConnectClient
            } else {
                TcpPlan::Skip
            }
        },
    }
}

/// Which interfaces a bridge node attaches at startup.
#[derive(Debug, Clone, Copy)]
pub struct InterfacePlan {
    /// What becomes of `--tcp`, when given.
    pub tcp: Option<TcpPlan>,
    /// Whether the Wi-Fi/LAN auto-discovery interface is attached.
    pub auto: bool,
    /// Whether neither was asked for, so the node cannot talk (a warning).
    pub no_interfaces: bool,
}

/// The attachment for one `--tcp` address.
pub fn tcp_plan(addr: &str) -> (r: TcpPlan)
    ensures
        r == tcp_plan_spec(addr@),
{
    let cs = chars_of(addr);
    proof {
        lemma_last_index_bound(addr@, ':');
    }
    match rfind_char(cs.as_slice(), ':') {
        None => TcpPlan::MissingPort,
        Some(colon) => {
            proof {
                lemma_last_index_bound(cs@, ':');
            }
            assert(colon < cs@.len());
            let port = match parse_uint(cs.as_slice(), colon + 1, cs.len(), 65535) {
                Some(p) => p,
                None => 0,
            };
            assert(cs@.subrange(colon + 1, cs@.len() as int) =~= addr@.skip(colon + 1));
            let bind_host = colon == 0 || (colon == 7 && cs[0] == '0' && cs[1] == '.' && cs[2]
                == '0' && cs[3] == '.' && cs[4] == '0' && cs[5] == '.' && cs[6] == '0');
            proof {
                let host = addr@.take(colon as int);
                let lit = "0.0.0.0"@;
                reveal_strlit("0.0.0.0");
                assert(lit.len() == 7);
                assert(lit[0] == '0' && lit[1] == '.' && lit[2] == '0' && lit[3] == '.' && lit[4]
                    == '0' && lit[5] == '.' && lit[6] == '0');
                if colon == 7 {
                    assert(host[0] == cs@[0] && host[1] == cs@[1] && host[2] == cs@[2] && host[3]
                        == cs@[3] && host[4] == cs@[4] && host[5] == cs@[5] && host[6] == cs@[6]);
                }
                if bind_host {
                    if colon == 7 {
                        assert(host =~= lit);
                    }
                } else {
                    assert(host != lit);
                }
            }
            if bind_host {
                TcpPlan::BindServer
            } else if port > 0 {
                TcpPlan::ConnectClient
            } else {
                TcpPlan::Skip
            }
        },
    }
}

/// The interfaces a node attaches for `--tcp` and `--auto`.
pub fn plan_interfaces(tcp: Option<&str>, auto: bool) -> (r: InterfacePlan)
    ensures
        match tcp {
            Some(addr) => r.tcp == Some(tcp_plan_spec(addr@)),
            None => r.tcp is None,
        },
        r.auto == auto,
        r.no_interfaces == (tcp is None && !auto),
{
    let plan = match tcp {
        Some(addr) => Some(tcp_plan(addr)),
        None => None,
    };
    InterfacePlan { tcp: plan, auto, no_interfaces: tcp.is_none() && !auto }
}

/// How many path requests the client sends for an explicit server hash.
pub const PATH_PROBE_ATTEMPTS: u32 = 12;

/// Seconds between path requests.
pub const PATH_PROBE_RETRY_SECS: u64 = 5;

/// What the path probe does after a path request.
#[derive(Debug, Clone, Copy, PartialEq, Eq, Structural)]
pub enum ProbeStep {
    /// The path is known: stop probing.
    Resolved,
    /// Wait `PATH_PROBE_RETRY_SECS`, then send request number `next_attempt`.
    WaitThenRetry { next_attempt: u32 },
    /// Wait `PATH_PROBE_RETRY_SECS`, then give up with a warning.
    WaitThenGiveUp,
}

/// The probe's decision after request number `attempt` (from 1) resolved or
/// not.
pub fn path_probe_step(attempt: u32, resolved: bool) -> (r: ProbeStep)
    requires
        1 <= attempt <= PATH_PROBE_ATTEMPTS,
    ensures
        resolved ==> r == ProbeStep::Resolved,
        !resolved && attempt < PATH_PROBE_ATTEMPTS ==> r == (ProbeStep::WaitThenRetry {
            next_attempt: (attempt + 1) as u32,
        }),
        !resolved && attempt == PATH_PROBE_ATTEMPTS ==> r == ProbeStep::WaitThenGiveUp,
{
    if resolved {
        ProbeStep::Resolved
    } else if attempt < PATH_PROBE_ATTEMPTS {
        ProbeStep::WaitThenRetry { next_attempt: attempt + 1 }
    } else {
        ProbeStep::WaitThenGiveUp
    }
}

/// Where opening a Link for a new GoldSrc client stands.
#[derive(Debug, Clone, Copy, PartialEq, Eq, Structural)]
pub enum LinkSetup {
    /// The first attempt to establish the Link.
    FirstAttempt,
    /// The first attempt failed; a path request is out.
    RequestingPath,
    /// The path request succeeded; the second and last attempt.
    SecondAttempt,
    /// The Link is up.
    Linked,
    /// Setup failed; the datagram is dropped.
    Failed,
}

impl LinkSetup {
    /// The next stage after the current step succeeded (`ok`) or failed.
    pub fn next(self, ok: bool) -> (r: LinkSetup)
        ensures
            self == LinkSetup::FirstAttempt ==> r == (if ok {
                LinkSetup::Linked
            } else {
                LinkSetup::RequestingPath
            }),
            self == LinkSetup::RequestingPath ==> r == (if ok {
                LinkSetup::SecondAttempt
            } else {
                LinkSetup::Failed
            }),
            self == LinkSetup::SecondAttempt ==> r == (if ok {
                LinkSetup::Linked
            } else {
                LinkSetup::Failed
            }),
            (self == LinkSetup::Linked || self == LinkSetup::Failed) ==> r == self,
    {
        match self {
            LinkSetup::FirstAttempt => if ok {
                LinkSetup::Linked
            } else {
                LinkSetup::RequestingPath
            },
            LinkSetup::RequestingPath => if ok {
                LinkSetup::SecondAttempt
            } else {
                LinkSetup::Failed
            },
            LinkSetup::SecondAttempt => if ok {
                LinkSetup::Linked
            } else {
                LinkSetup::Failed
            },
            other => other,
        }
    }
}

/// What the server-side relay does with a chunk from its Link.
#[derive(Debug)]
pub enum InboundStep {
    /// The empty chunk the router sends when the Link closed: stop relaying.
    End,
    /// A whole datagram: send it to the Sven Co-op server.
    Deliver(Vec<u8>),
    /// Part of a datagram: keep reading.
    Wait,
}

/// Feed one chunk of the Link to the server-side relay's reassembler.
pub fn server_inbound_step(reassembler: &mut crate::framing::Reassembler, chunk: &[u8]) -> (r:
    InboundStep)
    ensures
        chunk@.len() == 0 ==> r is End && final(reassembler)@ == old(reassembler)@,
        chunk@.len() > 0 ==> {
            let (buf, out) = crate::framing::push_spec(old(reassembler)@, chunk@);
            &&& final(reassembler)@ == buf
            &&& match out {
                Some(d) => r matches InboundStep::Deliver(v) && v@ == d,
                None => r is Wait,
            }
        },
{
    if chunk.len() == 0 {
        return InboundStep::End;
    }
    match reassembler.push(chunk) {
        Some(d) => InboundStep::Deliver(d),
        None => InboundStep::Wait,
    }
}

/// The name a bridge server announces when `--name` is not set.
pub const DEFAULT_ANNOUNCE_NAME: &'static str = "sc-rns-bridge";

/// The name a server announces: its `--name`, else the fixed default.
pub open spec fn announce_name_spec(name: Option<Seq<char>>) -> Seq<char> {
    match name {
        Some(n) => n,
        None => DEFAULT_ANNOUNCE_NAME@,
    }
}

/// The characters of an optional name.
pub open spec fn opt_name(name: Option<String>) -> Option<Seq<char>> {
    match name {
        Some(n) => Some(n@),
        None => None,
    }
}

/// The app data a bridge server's announces carry: the UTF-8 bytes of its
/// `--name`, or of the fixed default when that is unset.
pub fn announce_app_data(name: &Option<String>) -> (r: Vec<u8>)
    ensures
        r@ == encode_utf8(announce_name_spec(opt_name(*name))),
{
    let text = match name {
        Some(n) => n.clone(),
        None => owned(DEFAULT_ANNOUNCE_NAME),
    };
    text.as_str().as_bytes_vec()
}

/// The display name an announce's app data gives: its text when the bytes
/// are valid UTF-8 and not empty; none for a non-UTF-8 or empty payload.
pub open spec fn announced_name_spec(app_data: Seq<u8>) -> Option<Seq<char>> {
    if valid_utf8(app_data) && app_data.len() > 0 {
        Some(decode_utf8(app_data))
    } else {
        None
    }
}

/// The display name a heard announce carries, for the server browser.
pub fn announced_name(app_data: &[u8]) -> (r: Option<String>)
    ensures
        opt_name(r) == announced_name_spec(app_data@),
{
    if app_data.len() == 0 {
        return None;
    }
    let mut bytes: Vec<u8> = Vec::new();
    bytes.extend_from_slice(app_data);
    assert(bytes@ =~= app_data@);
    utf8_text(bytes)
}

/// Law: the name a server announces is the name the browser shows for it
/// (when it is not empty; an empty `--name` shows as no name).
pub proof fn announced_name_round_trips(name: Option<Seq<char>>)
    ensures
        announced_name_spec(encode_utf8(announce_name_spec(name))) == (if announce_name_spec(
            name,
        ).len() > 0 {
            Some(announce_name_spec(name))
        } else {
            None
        }),
{
    let n = announce_name_spec(name);
    encode_utf8_valid_utf8(n);
    encode_utf8_decode_utf8(n);
    if n.len() == 0 {
        assert(n =~= Seq::<char>::empty());
        assert(encode_utf8(n) =~= Seq::<u8>::empty());
    } else if encode_utf8(n).len() == 0 {
        assert(encode_utf8(n) =~= Seq::<u8>::empty());
        assert(decode_utf8(encode_utf8(n)) =~= Seq::<char>::empty());
    }
}

} // verus!
