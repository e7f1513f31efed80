//! A discovered `sven-coop/server` destination, for the server browser.
use vstd::prelude::*;

use crate::hexcodec::{encode, hex_encode_spec};
use crate::relay::{DiscoveredServer, server_hash_spec};

verus! {

/// One row in the server browser: a Reticulum `sven-coop.server` destination
/// we've heard an announce from, with how long ago we last heard it.
///
/// `last_seen_ago_secs` is computed at snapshot time, so it's a
/// moment-in-time view, not live.
#[derive(Debug)]
pub struct ServerEntry {
    /// 32-hex-char destination hash.
    pub destination_hash: String,
    /// Seconds since we last heard an announce from this server.
    pub last_seen_ago_secs: u64,
    /// The server's self-chosen display name, if its announce carried one.
    pub name: Option<String>,
}

/// Whole seconds elapsed from `since_ms` to `now_ms` (zero when the clock
/// reads earlier than `since_ms`), as `Instant::elapsed().as_secs()` counts.
pub open spec fn elapsed_secs(since_ms: u64, now_ms: u64) -> nat {
    if now_ms >= since_ms {
        ((now_ms - since_ms) / 1000) as nat
    } else {
        0
    }
}

/// What a browser row says of a discovered server at `now_ms`.
pub open spec fn entry_matches(e: ServerEntry, d: DiscoveredServer, now_ms: u64) -> bool {
    &&& e.destination_hash@ == hex_encode_spec(d.destination_hash.view16())
    &&& e.last_seen_ago_secs == elapsed_secs(d.last_seen, now_ms)
    &&& e.name == d.name
}

impl ServerEntry {
    /// The browser row for `d`, with its age measured at `now_ms` on the
    /// clock `d.last_seen` was read from (milliseconds).
    pub fn from_discovered(d: &DiscoveredServer, now_ms: u64) -> (r: Self)
        ensures
            entry_matches(r, *d, now_ms),
    {
        let ago_ms = if now_ms >= d.last_seen {
            now_ms - d.last_seen
        } else {
            0
        };
        ServerEntry {
            destination_hash: encode(&d.destination_hash.bytes),
            last_seen_ago_secs: ago_ms / 1000,
            name: crate::config::clone_opt_string(&d.name),
        }
    }
}

/// The browser rows for every discovered server, in the order they were
/// first heard.
pub fn entries_from(list: &Vec<DiscoveredServer>, now_ms: u64) -> (r: Vec<ServerEntry>)
    ensures
        r@.len() == list@.len(),
        forall|i: int| 0 <= i < list@.len() ==> entry_matches(#[trigger] r@[i], list@[i], now_ms),
{
    let mut out: Vec<ServerEntry> = Vec::new();
    let mut i: usize = 0;
    while i < list.len()
        invariant
            i <= list@.len(),
            out@.len() == i,
            forall|k: int| 0 <= k < i ==> entry_matches(#[trigger] out@[k], list@[k], now_ms),
        decreases list@.len() - i,
    {
        out.push(ServerEntry::from_discovered(&list[i], now_ms));
        i = i + 1;
    }
    out
}

/// Law: the hash a browser row shows, handed back as a `--server-hash` (or
/// to Connect), names the very destination it was heard from.
pub proof fn browser_hash_round_trips(e: ServerEntry, d: DiscoveredServer, now_ms: u64)
    requires
        entry_matches(e, d, now_ms),
    ensures
        server_hash_spec(e.destination_hash@) == Some(d.destination_hash.view16()),
{
    let t = e.destination_hash@;
    crate::hexcodec::hex_round_trip(d.destination_hash.view16());
    crate::hexcodec::lemma_hex_text_is_trimmed(d.destination_hash.view16());
    assert(crate::text::trim_spec(t) == t);
    assert(t.len() == 32);
}

} // verus!
