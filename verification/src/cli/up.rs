//! How a node plans its tunnels: which peers it can reach, through what, and who
//! opens the handshake.

use crate::bytes;
use crate::cli::error::{Error, Failure};
use crate::coord::auth;
use crate::coord::db;
use crate::coord::routes::PeerEntry;
use crate::encoding;
use crate::encoding::Decoded;
use crate::net::Endpoint;
use crate::text;
use crate::crypto::timestamp::Tai64N;
use crate::time::Instant;
use crate::tunnel::manager::TunnelManager;
use crate::tunnel::session::PeerConfig;
use vstd::prelude::*;

verus! {

/// The environment variable with the endpoint to announce.
pub const ADVERTISE_ENV: &'static str = "NABOSCALE_ADVERTISE_ENDPOINT";

/// The network that is routed into the tunnel.
pub const MESH_NETWORK: &'static str = "100.100.0.0/16";

/// A peer of the server's list, together with what its two addresses were read
/// as.
pub struct ListedPeer {
    /// The entry of the list.
    pub entry: PeerEntry,
    /// The entry's endpoint, where it is an address and a port.
    pub endpoint: Option<Endpoint>,
    /// The entry's relay, where it is an address and a port.
    pub relay: Option<Endpoint>,
}

/// The peers to open tunnels to, and the mesh addresses of those that cannot be
/// reached yet.
pub struct Plan {
    /// The tunnels.
    pub peers: Vec<PeerConfig>,
    /// The addresses of the others.
    pub skipped: Vec<String>,
}

/// The endpoint that stands for none.
pub open spec fn nowhere() -> Endpoint {
    Endpoint::V4 { ip: 0, port: 0 }
}

/// Whether a node opens the handshake with a peer. A node behind a relay always
/// does; towards a peer behind a relay it never does; otherwise the higher public
/// key does.
pub open spec fn opens(
    own: Seq<u8>,
    own_relay: Option<Endpoint>,
    peer: Seq<u8>,
    peer_relay: Option<Endpoint>,
) -> bool {
    if own_relay is Some {
        true
    } else if peer_relay is Some {
        false
    } else {
        bytes::comes_after(own, peer)
    }
}

/// Whether an announced endpoint is the wildcard address.
pub open spec fn is_wildcard_text(s: Seq<char>) -> bool {
    "0.0.0.0:"@.is_prefix_of(s) || "[::]:"@.is_prefix_of(s)
}

/// Whether a peer announced the wildcard address.
pub open spec fn wildcard(e: PeerEntry) -> bool {
    db::chars_of(e.last_endpoint) matches Some(s) && is_wildcard_text(s)
}

/// The tunnel key of a peer, or why it is none.
pub open spec fn peer_key(e: PeerEntry) -> Result<Seq<u8>, Failure> {
    match encoding::base64_decoded(e.wg_pubkey@) {
        Decoded::Bytes(b) => if b.len() == 32 {
            Ok(b)
        } else {
            Err(Failure::Server("peer wg_pubkey is not 32 bytes"@))
        },
        Decoded::Refused(t) => Err(Failure::Base64(t)),
    }
}

/// What planning makes of a peer.
pub enum Planned {
    /// The peer makes the plan impossible.
    Failed(Failure),
    /// The peer cannot be reached yet.
    Skipped,
    /// A tunnel to the peer: its key, where it is, its mesh address and whether we
    /// open the handshake.
    Tunnel { key: Seq<u8>, endpoint: Endpoint, ip: Seq<u8>, via_relay: Option<Endpoint>, opens: bool },
}

/// Whether a peer announced an endpoint other than the wildcard address.
pub open spec fn has_endpoint(e: PeerEntry) -> bool {
    db::chars_of(e.last_endpoint) is Some && !wildcard(e)
}

/// Through which relay a peer is reached: that of the node, where it has one, or
/// else that of the peer.
pub open spec fn relay_for(own_relay: Option<Endpoint>, relay: Option<Endpoint>) -> Option<Endpoint> {
    if own_relay is Some {
        own_relay
    } else {
        relay
    }
}

/// What planning makes of a peer, in the order in which its parts are looked at. A
/// peer with neither an endpoint of its own nor a relay cannot be reached.
pub open spec fn planned(p: ListedPeer, own: Seq<u8>, own_relay: Option<Endpoint>) -> Planned {
    match peer_key(p.entry) {
        Err(f) => Planned::Failed(f),
        Ok(key) => if db::chars_of(p.entry.via_relay) is Some && p.relay is None {
            Planned::Failed(
                Failure::Server(
                    "peer "@ + p.entry.node_id@ + " via_relay "@ + text::quoted_text(
                        db::chars_of(p.entry.via_relay)->0,
                    ) + " is not a valid ip:port"@,
                ),
            )
        } else {
            let relay = if db::chars_of(p.entry.via_relay) is Some {
                p.relay
            } else {
                None
            };
            if !has_endpoint(p.entry) && relay is None {
                Planned::Skipped
            } else if has_endpoint(p.entry) && p.endpoint is None {
                Planned::Failed(Failure::Server("peer endpoint is not a valid socket address"@))
            } else if !text::is_dotted(p.entry.ip@) {
                Planned::Failed(Failure::Server("peer ip is not a valid IPv4: "@ + p.entry.ip@))
            } else {
                Planned::Tunnel {
                    key,
                    endpoint: if has_endpoint(p.entry) {
                        p.endpoint->0
                    } else {
                        nowhere()
                    },
                    ip: text::lenient_ip(p.entry.ip@),
                    via_relay: relay_for(own_relay, relay),
                    opens: opens(own, own_relay, key, relay),
                }
            }
        },
    }
}

/// Whether a configuration is the planned tunnel, under an identifier.
pub open spec fn configures(c: PeerConfig, p: Planned, sender_id: int) -> bool {
    &&& p matches Planned::Tunnel { key, endpoint, ip, via_relay, opens }
    &&& c.peer_pub@ == key
    &&& c.psk@ == Seq::new(32, |i: int| 0u8)
    &&& c.local_sender_id == sender_id
    &&& c.is_initiator == opens
    &&& c.peer_endpoint == endpoint
    &&& c.peer_ip@ == ip
    &&& c.via_relay == via_relay
}

/// The places of the first `n` peers that get a tunnel.
pub open spec fn tunnelled(
    peers: Seq<ListedPeer>,
    own: Seq<u8>,
    own_relay: Option<Endpoint>,
    n: nat,
) -> Seq<int>
    decreases n,
{
    if n == 0 {
        Seq::empty()
    } else {
        let before = tunnelled(peers, own, own_relay, (n - 1) as nat);
        if planned(peers[n - 1], own, own_relay) is Tunnel {
            before.push(n - 1)
        } else {
            before
        }
    }
}

/// The mesh addresses of the peers among the first `n` that are skipped.
pub open spec fn skipped(
    peers: Seq<ListedPeer>,
    own: Seq<u8>,
    own_relay: Option<Endpoint>,
    n: nat,
) -> Seq<Seq<char>>
    decreases n,
{
    if n == 0 {
        Seq::empty()
    } else {
        let before = skipped(peers, own, own_relay, (n - 1) as nat);
        if planned(peers[n - 1], own, own_relay) is Skipped {
            before.push(peers[n - 1].entry.ip@)
        } else {
            before
        }
    }
}

/// Whether a byte string comes after another in the order of bytes.
pub fn is_after(a: &[u8; 32], b: &[u8; 32]) -> (r: bool)
    ensures
        r == bytes::comes_after(a@, b@),
{
    let mut i: usize = 0;
    while i < 32
        invariant
            i <= 32,
            a@.take(i as int) == b@.take(i as int),
        decreases 32 - i,
    {
        if a[i] != b[i] {
            proof {
                assert(bytes::differ_at(a@, b@, i as int));
                assert forall|k: int| #[trigger] bytes::differ_at(a@, b@, k) implies k == i by {
                    bytes::lemma_differ_once(a@, b@, i as int, k);
                }
            }
            return a[i] > b[i];
        }
        proof {
            assert(a@.take(i + 1) =~= a@.take(i as int).push(a@[i as int]));
            assert(b@.take(i + 1) =~= b@.take(i as int).push(b@[i as int]));
        }
        i = i + 1;
    }
    proof {
        assert(a@.take(32) =~= a@);
        assert(b@.take(32) =~= b@);
        assert forall|k: int| !#[trigger] bytes::differ_at(a@, b@, k) by {}
    }
    false
}

/// Of two nodes that are not behind relays, exactly one opens the handshake.
pub proof fn law_one_side_opens(a: Seq<u8>, b: Seq<u8>)
    requires
        a.len() == b.len(),
        a != b,
    ensures
        opens(a, None, b, None) != opens(b, None, a, None),
{
    assert(a.take(a.len() as int) =~= a);
    assert(b.take(b.len() as int) =~= b);
    bytes::lemma_some_difference(a, b, a.len() as int);
    let i = choose|i: int| bytes::differ_at(a, b, i);
    assert(bytes::differ_at(b, a, i));
    if bytes::comes_after(a, b) {
        let k = choose|k: int| #[trigger] bytes::differ_at(a, b, k) && a[k] > b[k];
        bytes::lemma_differ_once(a, b, i, k);
    }
    if bytes::comes_after(b, a) {
        let k = choose|k: int| #[trigger] bytes::differ_at(b, a, k) && b[k] > a[k];
        bytes::lemma_differ_once(b, a, i, k);
    }
    if a[i] > b[i] {
        assert(bytes::comes_after(a, b));
    } else {
        assert(bytes::comes_after(b, a));
    }
}

/// A node behind a relay opens the handshake with every peer, whatever relay the
/// peer is behind, and a peer that is not behind one and knows of the relay waits
/// for it.
pub proof fn law_relayed_node_opens(
    a: Seq<u8>,
    b: Seq<u8>,
    relay: Endpoint,
    peer_relay: Option<Endpoint>,
)
    ensures
        opens(a, Some(relay), b, peer_relay),
        !opens(b, None, a, Some(relay)),
{
}

/// A peer that announces the wildcard address and no relay is skipped by every
/// node that can read its key.
pub proof fn law_wildcard_is_skipped(p: ListedPeer, own: Seq<u8>, own_relay: Option<Endpoint>)
    requires
        peer_key(p.entry) is Ok,
        wildcard(p.entry),
        db::chars_of(p.entry.via_relay) is None,
    ensures
        planned(p, own, own_relay) is Skipped,
        discovered(p, own, own_relay) is None,
{
}

/// A peer whose parts can all be read gets a tunnel exactly where it has an endpoint
/// of its own or a relay, and is skipped otherwise.
pub proof fn law_reachable_peers_get_tunnels(
    p: ListedPeer,
    own: Seq<u8>,
    own_relay: Option<Endpoint>,
)
    requires
        peer_key(p.entry) is Ok,
        text::is_dotted(p.entry.ip@),
        db::chars_of(p.entry.last_endpoint) is Some ==> p.endpoint is Some,
        db::chars_of(p.entry.via_relay) is Some ==> p.relay is Some,
    ensures
        planned(p, own, own_relay) is Tunnel <==> db::chars_of(p.entry.via_relay) is Some
            || has_endpoint(p.entry),
        planned(p, own, own_relay) is Skipped <==> !(planned(p, own, own_relay) is Tunnel),
{
}

/// A node with a relay sends everything through that relay, whatever relay a peer
/// is behind.
pub proof fn law_own_relay_is_used(p: ListedPeer, own: Seq<u8>, relay: Endpoint)
    ensures
        planned(p, own, Some(relay)) matches Planned::Tunnel { via_relay, .. } ==> via_relay
            == Some(relay),
        discovered(p, own, Some(relay)) matches Some(Planned::Tunnel { via_relay, .. })
            ==> via_relay == Some(relay),
{
}

/// Whether an announced endpoint is the wildcard address.
pub fn is_wildcard(s: &str) -> (r: bool)
    ensures
        r == is_wildcard_text(s@),
{
    text::starts_with(s, "0.0.0.0:") || text::starts_with(s, "[::]:")
}

/// Plans the tunnel to a peer under an identifier; `None` where the peer cannot be
/// reached yet.
pub fn plan_peer(p: &ListedPeer, own: &[u8; 32], own_relay: Option<Endpoint>, sender_id: u32) -> (r:
    Result<Option<PeerConfig>, Error>)
    ensures
        match r {
            Ok(Some(c)) => configures(c, planned(*p, own@, own_relay), sender_id as int),
            Ok(None) => planned(*p, own@, own_relay) is Skipped,
            Err(e) => planned(*p, own@, own_relay) == Planned::Failed(e@),
        },
{
    let decoded = match encoding::base64_decode(p.entry.wg_pubkey.as_str()) {
        Ok(b) => b,
        Err(t) => return Err(Error::Base64(t)),
    };
    if decoded.len() != 32 {
        return Err(Error::Server("peer wg_pubkey is not 32 bytes".to_string()));
    }
    let peer_pub: [u8; 32] = bytes::take_array(decoded.as_slice(), 0);
    assert(peer_pub@ =~= decoded@);
    let direct = match &p.entry.last_endpoint {
        Some(s) => !is_wildcard(s.as_str()),
        None => false,
    };
    assert(direct == has_endpoint(p.entry));
    let relay = match &p.entry.via_relay {
        Some(s) => match p.relay {
            Some(a) => Some(a),
            None => {
                return Err(
                    Error::Server(
                        "peer ".to_string().concat(p.entry.node_id.as_str()).concat(
                            " via_relay ",
                        ).concat(text::quoted(s.as_str()).as_str()).concat(
                            " is not a valid ip:port",
                        ),
                    ),
                );
            },
        },
        None => None,
    };
    if !direct && relay.is_none() {
        return Ok(None);
    }
    let peer_endpoint = if direct {
        match p.endpoint {
            Some(e) => e,
            None => {
                return Err(
                    Error::Server("peer endpoint is not a valid socket address".to_string()),
                );
            },
        }
    } else {
        Endpoint::V4 { ip: 0, port: 0 }
    };
    let peer_ip = match text::parse_ipv4(p.entry.ip.as_str()) {
        Some(ip) => ip,
        None => {
            return Err(
                Error::Server(
                    "peer ip is not a valid IPv4: ".to_string().concat(p.entry.ip.as_str()),
                ),
            );
        },
    };
    proof {
        text::law_dotted_round_trip(peer_ip);
        assert(text::is_dotted(p.entry.ip@));
    }
    let via_relay = match own_relay {
        Some(a) => Some(a),
        None => relay,
    };
    let psk = [0u8; 32];
    assert(psk@ =~= Seq::new(32, |i: int| 0u8));
    Ok(
        Some(
            PeerConfig {
                peer_pub,
                psk,
                local_sender_id: sender_id,
                is_initiator: initiates(own, own_relay, &peer_pub, relay),
                peer_endpoint,
                peer_ip,
                via_relay,
            },
        ),
    )
}

/// Whether a node opens the handshake with a peer.
pub fn initiates(
    own: &[u8; 32],
    own_relay: Option<Endpoint>,
    peer: &[u8; 32],
    peer_relay: Option<Endpoint>,
) -> (r: bool)
    ensures
        r == opens(own@, own_relay, peer@, peer_relay),
{
    if own_relay.is_some() {
        true
    } else if peer_relay.is_some() {
        false
    } else {
        is_after(own, peer)
    }
}

/// What planning makes of the server's list: the tunnels, under the places of their
/// peers counted from one, and the addresses of the peers that are skipped; or the
/// failure of the first peer that makes the plan impossible.
pub open spec fn laid_out(
    peers: Seq<ListedPeer>,
    own: Seq<u8>,
    own_relay: Option<Endpoint>,
    r: Result<Plan, Error>,
) -> bool {
    match r {
        Ok(plan) => {
            let at = tunnelled(peers, own, own_relay, peers.len());
            &&& forall|i: int|
                0 <= i < peers.len() ==> !(planned(#[trigger] peers[i], own, own_relay) is Failed)
            &&& plan.peers@.len() == at.len()
            &&& forall|k: int|
                0 <= k < at.len() ==> configures(
                    #[trigger] plan.peers@[k],
                    planned(peers[at[k]], own, own_relay),
                    at[k] + 1,
                )
            &&& crate::cli::platform::texts(plan.skipped@) == skipped(
                peers,
                own,
                own_relay,
                peers.len(),
            )
        },
        Err(e) => exists|i: int|
            #![trigger peers[i]]
            0 <= i < peers.len() && planned(peers[i], own, own_relay) == Planned::Failed(e@)
                && forall|j: int|
                0 <= j < i ==> !(planned(#[trigger] peers[j], own, own_relay) is Failed),
    }
}

/// Plans the tunnels to all peers of the server's list. Every peer gets the
/// identifier of its place in the list, counted from one, whether it can be
/// reached or not. The first peer that makes the plan impossible ends it.
pub fn plan_peers(peers: &Vec<ListedPeer>, own: &[u8; 32], own_relay: Option<Endpoint>) -> (r: Result<
    Plan,
    Error,
>)
    requires
        peers@.len() <= u32::MAX,
    ensures
        laid_out(peers@, own@, own_relay, r),
{
    let mut out: Vec<PeerConfig> = Vec::new();
    let mut left: Vec<String> = Vec::new();
    let mut i: usize = 0;
    assert(crate::cli::platform::texts(left@) =~= skipped(peers@, own@, own_relay, 0));
    while i < peers.len()
        invariant
            i <= peers@.len() <= u32::MAX,
            forall|j: int|
                0 <= j < i ==> !(planned(#[trigger] peers@[j], own@, own_relay) is Failed),
            out@.len() == tunnelled(peers@, own@, own_relay, i as nat).len(),
            forall|k: int|
                0 <= k < out@.len() ==> configures(
                    #[trigger] out@[k],
                    planned(
                        peers@[tunnelled(peers@, own@, own_relay, i as nat)[k]],
                        own@,
                        own_relay,
                    ),
                    tunnelled(peers@, own@, own_relay, i as nat)[k] + 1,
                ),
            crate::cli::platform::texts(left@) == skipped(peers@, own@, own_relay, i as nat),
        decreases peers@.len() - i,
    {
        let ghost before = left@;
        match plan_peer(&peers[i], own, own_relay, i as u32 + 1) {
            Ok(Some(c)) => {
                out.push(c);
            },
            Ok(None) => {
                left.push(peers[i].entry.ip.clone());
                assert(crate::cli::platform::texts(left@) =~= crate::cli::platform::texts(
                    before,
                ).push(peers@[i as int].entry.ip@));
            },
            Err(e) => {
                assert(planned(peers@[i as int], own@, own_relay) == Planned::Failed(e@));
                return Err(e);
            },
        }
        i = i + 1;
    }
    Ok(Plan { peers: out, skipped: left })
}

/// Whether a peer that appears while the tunnels are up gets one. It is ignored
/// where its key or its address is no good, and where it can be reached neither
/// directly nor through a relay; an endpoint that is no address counts as none.
pub open spec fn discovered(p: ListedPeer, own: Seq<u8>, own_relay: Option<Endpoint>) -> Option<
    Planned,
> {
    let relay = if db::chars_of(p.entry.via_relay) is Some {
        p.relay
    } else {
        None
    };
    let direct = has_endpoint(p.entry);
    if peer_key(p.entry) is Err || !text::is_dotted(p.entry.ip@) || (!direct && relay is None) {
        None
    } else {
        let key = peer_key(p.entry)->Ok_0;
        Some(
            Planned::Tunnel {
                key,
                endpoint: if direct && p.endpoint is Some {
                    p.endpoint->0
                } else {
                    nowhere()
                },
                ip: text::lenient_ip(p.entry.ip@),
                via_relay: relay_for(own_relay, relay),
                opens: opens(own, own_relay, key, relay),
            },
        )
    }
}

/// The tunnel to a peer that appears while the tunnels are up, where it gets one.
/// Its identifier follows the number of peers there are.
pub fn discover_peer(
    p: &ListedPeer,
    own: &[u8; 32],
    own_relay: Option<Endpoint>,
    peer_count: usize,
) -> (r: Option<PeerConfig>)
    requires
        peer_count < u32::MAX,
    ensures
        match r {
            Some(c) => discovered(*p, own@, own_relay) is Some && configures(
                c,
                discovered(*p, own@, own_relay)->0,
                peer_count + 1,
            ),
            None => discovered(*p, own@, own_relay) is None,
        },
{
    let decoded = match encoding::base64_decode(p.entry.wg_pubkey.as_str()) {
        Ok(b) => b,
        Err(_) => return None,
    };
    if decoded.len() != 32 {
        return None;
    }
    let peer_pub: [u8; 32] = bytes::take_array(decoded.as_slice(), 0);
    assert(peer_pub@ =~= decoded@);
    let peer_ip = match text::parse_ipv4(p.entry.ip.as_str()) {
        Some(ip) => ip,
        None => return None,
    };
    proof {
        text::law_dotted_round_trip(peer_ip);
        assert(text::is_dotted(p.entry.ip@));
    }
    let relay = match &p.entry.via_relay {
        Some(_) => p.relay,
        None => None,
    };
    let direct = match &p.entry.last_endpoint {
        Some(s) => !is_wildcard(s.as_str()),
        None => false,
    };
    if !direct && relay.is_none() {
        return None;
    }
    let peer_endpoint = if direct {
        match p.endpoint {
            Some(e) => e,
            None => Endpoint::V4 { ip: 0, port: 0 },
        }
    } else {
        Endpoint::V4 { ip: 0, port: 0 }
    };
    let via_relay = match own_relay {
        Some(a) => Some(a),
        None => relay,
    };
    let psk = [0u8; 32];
    assert(psk@ =~= Seq::new(32, |i: int| 0u8));
    Some(
        PeerConfig {
            peer_pub,
            psk,
            local_sender_id: peer_count as u32 + 1,
            is_initiator: initiates(own, own_relay, &peer_pub, relay),
            peer_endpoint,
            peer_ip,
            via_relay,
        },
    )
}

/// What one listed peer does to the tunnels that are up: one more session starts
/// where the peer gets a tunnel and its key is not known yet.
pub open spec fn welcomed(
    m: TunnelManager,
    p: ListedPeer,
    own: Seq<u8>,
    own_relay: Option<Endpoint>,
    now: Instant,
    clock: Tai64N,
    after: TunnelManager,
) -> bool {
    match discovered(p, own, own_relay) {
        Some(t) => exists|c: PeerConfig| #[trigger]
            configures(c, t, m.peers().len() as int + 1) && if m.pubkeys().contains_key(c.peer_pub) {
                after.unchanged(m)
            } else {
                m.grew(c, now, clock, after)
            },
        None => after.unchanged(m),
    }
}

/// What the first `n` listed peers do to the tunnels that are up, one after the
/// other.
pub open spec fn all_welcomed(
    m: TunnelManager,
    peers: Seq<ListedPeer>,
    n: nat,
    own: Seq<u8>,
    own_relay: Option<Endpoint>,
    now: Instant,
    clock: Tai64N,
    after: TunnelManager,
) -> bool
    decreases n,
{
    if n == 0 {
        after.unchanged(m)
    } else {
        exists|mid: TunnelManager|
            all_welcomed(m, peers, (n - 1) as nat, own, own_relay, now, clock, mid)
                && #[trigger] welcomed(mid, peers[n - 1], own, own_relay, now, clock, after)
    }
}

/// Starts sessions with the listed peers that are new. The sessions that there
/// are stay as they are, and afterwards every peer that can be reached is known.
pub fn discover_peers(
    manager: &mut TunnelManager,
    peers: &Vec<ListedPeer>,
    own: &[u8; 32],
    own_relay: Option<Endpoint>,
    now: Instant,
    clock: Tai64N,
)
    requires
        old(manager).wf(),
        old(manager).peers().len() + peers@.len() < u32::MAX,
    ensures
        final(manager).wf(),
        all_welcomed(
            *old(manager),
            peers@,
            peers@.len(),
            own@,
            own_relay,
            now,
            clock,
            *final(manager),
        ),
        old(manager).peers().is_prefix_of(final(manager).peers()),
        forall|i: int|
            0 <= i < peers@.len() && discovered(#[trigger] peers@[i], own@, own_relay) is Some
                ==> knows(*final(manager), peer_key(peers@[i].entry)->Ok_0),
{
    let mut i: usize = 0;
    while i < peers.len()
        invariant
            i <= peers@.len(),
            manager.wf(),
            manager.peers().len() + (peers@.len() - i) < u32::MAX,
            all_welcomed(
                *old(manager),
                peers@,
                i as nat,
                own@,
                own_relay,
                now,
                clock,
                *manager,
            ),
            old(manager).peers().is_prefix_of(manager.peers()),
            forall|k: int|
                0 <= k < i && discovered(#[trigger] peers@[k], own@, own_relay) is Some ==> knows(
                    *manager,
                    peer_key(peers@[k].entry)->Ok_0,
                ),
        decreases peers@.len() - i,
    {
        let ghost before = *manager;
        let count: usize = manager.peer_count();
        if let Some(c) = discover_peer(&peers[i], own, own_relay, count) {
            let ghost cfg = c;
            let _ = manager.add_peer(c, now, clock);
            proof {
                let j = manager.pubkeys()[cfg.peer_pub] as int;
                assert(manager.pubkeys().contains_key(cfg.peer_pub));
                assert(manager.peers()[j].config.peer_pub == cfg.peer_pub);
            }
        }
        i = i + 1;
        proof {
            assert(welcomed(before, peers@[i - 1], own@, own_relay, now, clock, *manager));
            assert forall|k: int|
                0 <= k < i && discovered(#[trigger] peers@[k], own@, own_relay) is Some implies knows(
                *manager,
                peer_key(peers@[k].entry)->Ok_0,
            ) by {
                if k < i - 1 {
                    let key = peer_key(peers@[k].entry)->Ok_0;
                    let j = choose|j: int|
                        0 <= j < before.peers().len() && (#[trigger] before.peers()[j]).config.peer_pub@
                            == key;
                    assert(manager.peers()[j] == before.peers()[j]);
                }
            }
        }
    }
}

/// Whether a key is that of a peer.
pub open spec fn knows(m: TunnelManager, key: Seq<u8>) -> bool {
    exists|j: int| 0 <= j < m.peers().len() && (#[trigger] m.peers()[j]).config.peer_pub@ == key
}

/// The endpoint that the node announces: the one that it was told to, else what the
/// environment holds, else the one that it is bound to.
pub open spec fn announced(
    told: Option<Seq<char>>,
    env: Option<Seq<char>>,
    bound: Seq<char>,
) -> Seq<char> {
    match told {
        Some(t) => t,
        None => match env {
            Some(t) => t,
            None => bound,
        },
    }
}

/// The endpoint that the node announces.
pub fn choose_advertised(told: Option<&str>, env: Option<&str>, bound: &str) -> (r: String)
    ensures
        r@ == announced(auth::text_of(told), auth::text_of(env), bound@),
{
    match (told, env) {
        (Some(t), _) => t.to_string(),
        (None, Some(t)) => t.to_string(),
        (None, None) => bound.to_string(),
    }
}

/// Refuses to announce what is no address and port. `is_address` says whether it
/// is one.
pub fn check_advertised(advertised: &str, is_address: bool) -> (r: Result<(), Error>)
    ensures
        match r {
            Ok(_) => is_address,
            Err(e) => !is_address && e@ == Failure::Server(
                "advertise-endpoint "@ + text::quoted_text(advertised@)
                    + " is not a valid ip:port"@,
            ),
        },
{
    if is_address {
        Ok(())
    } else {
        Err(
            Error::Server(
                "advertise-endpoint ".to_string().concat(text::quoted(advertised).as_str()).concat(
                    " is not a valid ip:port",
                ),
            ),
        )
    }
}

/// The relay that the node uses where it was told one, or why it uses none; `parsed` is
/// what it was read as.
pub open spec fn relay_told(told: Option<Seq<char>>, parsed: Option<Endpoint>) -> Result<
    Option<Endpoint>,
    Failure,
> {
    match (told, parsed) {
        (None, _) => Ok(None),
        (Some(_), Some(e)) => Ok(Some(e)),
        (Some(s), None) => Err(Failure::Server("invalid --relay endpoint: "@ + s)),
    }
}

/// Reads the relay that the node was told to use; `parsed` is what it was read as.
pub fn check_relay(told: Option<&str>, parsed: Option<Endpoint>) -> (r: Result<
    Option<Endpoint>,
    Error,
>)
    ensures
        match r {
            Ok(relay) => relay_told(auth::text_of(told), parsed) == Ok::<Option<Endpoint>, Failure>(
                relay,
            ),
            Err(e) => relay_told(auth::text_of(told), parsed) == Err::<Option<Endpoint>, Failure>(
                e@,
            ),
        },
{
    match told {
        Some(s) => match parsed {
            Some(e) => Ok(Some(e)),
            None => Err(Error::Server("invalid --relay endpoint: ".to_string().concat(s))),
        },
        None => Ok(None),
    }
}

/// Reads the node's own mesh address.
pub fn own_ip(ip: &str) -> (r: Result<[u8; 4], Error>)
    ensures
        match r {
            Ok(octets) => ip@ == text::dotted(octets@),
            Err(e) => !text::is_dotted(ip@) && e@ == Failure::Server(
                "my own ip is not a valid IPv4: "@ + ip@,
            ),
        },
{
    match text::parse_ipv4(ip) {
        Some(octets) => Ok(octets),
        None => Err(Error::Server("my own ip is not a valid IPv4: ".to_string().concat(ip))),
    }
}

/// The address at the far end of the device: that of the first tunnel, or the
/// node's own where there is none.
pub open spec fn far_end_of(peers: Seq<PeerConfig>, own_ip: Seq<char>) -> Seq<char> {
    if peers.len() > 0 {
        text::dotted(peers[0].peer_ip@)
    } else {
        own_ip
    }
}

/// The address at the far end of the device.
pub fn far_end(peers: &Vec<PeerConfig>, own_ip: &str) -> (r: String)
    ensures
        r@ == far_end_of(peers@, own_ip@),
{
    if peers.len() > 0 {
        text::dotted_text(&peers[0].peer_ip)
    } else {
        own_ip.to_string()
    }
}

} // verus!
