//! What a node's plan promises: which peers get a tunnel, through what relay, and
//! which side opens the handshake. And what its key files give back.

use crate::cli::client;
use crate::cli::error::{Error, Failure};
use crate::cli::init;
use crate::cli::keystore;
use crate::cli::keystore::KeyKind;
use crate::cli::up;
use crate::cli::up::{ListedPeer, Plan, Planned};
use crate::bytes;
use crate::coord::laws;
use crate::coord::rate_limit::Bucket;
use crate::coord::routes::{
    HeartbeatRequest, RefreshResponse, RegisterRequest, RegisterResponse, SignedRequest,
};
use crate::coord::state::AppState;
use crate::crypto::identity::Identity;
use crate::crypto::timestamp::Tai64N;
use crate::encoding;
use crate::encoding::Decoded;
use crate::net::{Endpoint, IpAddress};
use crate::text;
use crate::time::Instant;
use crate::tunnel::manager::TunnelManager;
use crate::tunnel::session::PeerConfig;
use vstd::prelude::*;
use vstd::utf8::*;

verus! {

/// Whether a peer's entry holds a key and an address, and whether its relay, where
/// it names one, was read as an address.
pub open spec fn holds(p: ListedPeer, key: Seq<u8>, ip: [u8; 4]) -> bool {
    &&& encoding::base64_decoded(p.entry.wg_pubkey@) == Decoded::Bytes(key)
    &&& key.len() == 32
    &&& p.entry.ip@ == text::dotted(ip@)
    &&& p.entry.via_relay is Some ==> p.relay is Some
}

/// Whether a peer announced an endpoint at which it can be reached.
pub open spec fn announces(p: ListedPeer) -> bool {
    p.entry.last_endpoint matches Some(t) && !"0.0.0.0:"@.is_prefix_of(t@)
        && !"[::]:"@.is_prefix_of(t@)
}

/// Whether a key is the higher one of two.
pub open spec fn is_higher(a: Seq<u8>, b: Seq<u8>) -> bool {
    exists|k: int|
        0 <= k < 32 && #[trigger] a[k] > b[k] && forall|j: int| 0 <= j < k ==> a[j] == b[j]
}

/// Whether a configuration leads to a peer: to its key and its mesh address, to the
/// endpoint that it announced or else to none, through the node's own relay or else
/// through that of the peer. A node with a relay opens the handshake, one whose peer
/// has a relay waits, and otherwise the node with the higher key opens it.
pub open spec fn leads_to(
    c: PeerConfig,
    p: ListedPeer,
    key: Seq<u8>,
    ip: [u8; 4],
    own: Seq<u8>,
    own_relay: Option<Endpoint>,
    id: int,
) -> bool {
    &&& c.peer_pub@ == key
    &&& c.peer_ip@ == ip@
    &&& c.local_sender_id == id
    &&& forall|k: int| 0 <= k < 32 ==> #[trigger] c.psk@[k] == 0
    &&& announces(p) && p.endpoint is Some ==> p.endpoint == Some(c.peer_endpoint)
    &&& !announces(p) || p.endpoint is None ==> c.peer_endpoint == (Endpoint::V4 {
        ip: 0,
        port: 0,
    })
    &&& match (own_relay, p.entry.via_relay) {
        (Some(x), _) => c.via_relay == Some(x) && c.is_initiator,
        (None, Some(_)) => c.via_relay == p.relay && !c.is_initiator,
        (None, None) => c.via_relay is None && c.is_initiator == is_higher(own, key),
    }
}

proof fn lemma_higher(a: Seq<u8>, b: Seq<u8>)
    requires
        a.len() == 32,
        b.len() == 32,
    ensures
        bytes::comes_after(a, b) == is_higher(a, b),
{
    if bytes::comes_after(a, b) {
        let k = choose|k: int| #[trigger] bytes::differ_at(a, b, k) && a[k] > b[k];
        assert forall|j: int| 0 <= j < k implies a[j] == b[j] by {
            assert(a.take(k)[j] == b.take(k)[j]);
        }
        assert(a[k] > b[k]);
    }
    if is_higher(a, b) {
        let k = choose|k: int|
            0 <= k < 32 && #[trigger] a[k] > b[k] && forall|j: int| 0 <= j < k ==> a[j] == b[j];
        assert(a.take(k) =~= b.take(k));
        assert(bytes::differ_at(a, b, k));
    }
}

/// The tunnel that is planned to a peer leads to that peer, and so does one to a
/// peer that is discovered later.
pub proof fn law_tunnel_leads_to_peer(
    c: PeerConfig,
    p: ListedPeer,
    key: Seq<u8>,
    ip: [u8; 4],
    own: Seq<u8>,
    own_relay: Option<Endpoint>,
    id: int,
)
    requires
        own.len() == 32,
        holds(p, key, ip),
        up::configures(c, up::planned(p, own, own_relay), id) || (up::discovered(
            p,
            own,
            own_relay,
        ) matches Some(t) && up::configures(c, t, id)),
    ensures
        leads_to(c, p, key, ip, own, own_relay, id),
{
    text::law_dotted_round_trip(ip);
    lemma_higher(own, key);
}

/// Where the node has no relay of its own, every tunnel to a peer behind a relay
/// goes through exactly that relay, whether or not the peer announced an endpoint
/// too. Where neither has one, the tunnel goes through none.
pub proof fn law_peer_relay_is_used(p: ListedPeer, own: Seq<u8>, relay: Endpoint)
    requires
        p.relay == Some(relay),
    ensures
        p.entry.via_relay is Some ==> {
            &&& up::planned(p, own, None) matches Planned::Tunnel { via_relay, opens, .. } ==> {
                via_relay == Some(relay) && !opens
            }
            &&& up::discovered(p, own, None) matches Some(Planned::Tunnel { via_relay, opens, .. })
                ==> via_relay == Some(relay) && !opens
            &&& forall|c: PeerConfig, id: int| #[trigger]
                up::configures(c, up::planned(p, own, None), id) ==> c.via_relay == Some(relay)
        },
        p.entry.via_relay is None ==> {
            &&& up::planned(p, own, None) matches Planned::Tunnel { via_relay, .. } ==> via_relay
                is None
            &&& up::discovered(p, own, None) matches Some(Planned::Tunnel { via_relay, .. })
                ==> via_relay is None
        },
{
}

/// A peer whose entry can be read gets a tunnel where it announced an endpoint or
/// sits behind a relay, and is left for later where it did neither. One that is
/// discovered later is treated alike.
pub proof fn law_who_gets_a_tunnel(
    p: ListedPeer,
    key: Seq<u8>,
    ip: [u8; 4],
    own: Seq<u8>,
    own_relay: Option<Endpoint>,
)
    requires
        holds(p, key, ip),
        announces(p) ==> p.endpoint is Some,
    ensures
        announces(p) || p.entry.via_relay is Some ==> {
            &&& up::planned(p, own, own_relay) is Tunnel
            &&& up::discovered(p, own, own_relay) is Some
        },
        !announces(p) && p.entry.via_relay is None ==> {
            &&& up::planned(p, own, own_relay) is Skipped
            &&& up::discovered(p, own, own_relay) is None
        },
{
    text::law_dotted_round_trip(ip);
}

/// A peer that appears while the tunnels are up gets one exactly where its entry holds a
/// key and a mesh address, and it announced an endpoint or names a relay that is an
/// address. The tunnel leads to the endpoint where that is an address, and goes through
/// the node's relay, or else through the peer's where that is an address.
pub proof fn law_who_is_discovered(p: ListedPeer, own: Seq<u8>, own_relay: Option<Endpoint>)
    ensures
        up::discovered(p, own, own_relay) is Some <==> {
            &&& encoding::base64_decoded(p.entry.wg_pubkey@) matches Decoded::Bytes(b) && b.len()
                == 32
            &&& exists|ip: [u8; 4]| p.entry.ip@ == #[trigger] text::dotted(ip@)
            &&& announces(p) || (p.entry.via_relay is Some && p.relay is Some)
        },
        up::discovered(p, own, own_relay) matches Some(t) ==> {
            &&& t matches Planned::Tunnel { key, endpoint, ip, via_relay, opens }
            &&& encoding::base64_decoded(p.entry.wg_pubkey@) == Decoded::Bytes(key)
            &&& announces(p) && p.endpoint is Some ==> p.endpoint == Some(endpoint)
            &&& !announces(p) || p.endpoint is None ==> endpoint == (Endpoint::V4 {
                ip: 0,
                port: 0,
            })
            &&& via_relay == match own_relay {
                Some(x) => Some(x),
                None => if p.entry.via_relay is Some {
                    p.relay
                } else {
                    None
                },
            }
        },
{
}

proof fn lemma_tunnelled(
    peers: Seq<ListedPeer>,
    own: Seq<u8>,
    own_relay: Option<Endpoint>,
    n: nat,
)
    requires
        n <= peers.len(),
    ensures
        ({
            let at = up::tunnelled(peers, own, own_relay, n);
            &&& forall|k: int|
                0 <= k < at.len() ==> 0 <= #[trigger] at[k] < n && up::planned(
                    peers[at[k]],
                    own,
                    own_relay,
                ) is Tunnel
            &&& forall|k: int, l: int| 0 <= k < l < at.len() ==> at[k] < at[l]
            &&& forall|i: int|
                0 <= i < n && up::planned(#[trigger] peers[i], own, own_relay) is Tunnel
                    ==> at.contains(i)
        }),
    decreases n,
{
    if n > 0 {
        lemma_tunnelled(peers, own, own_relay, (n - 1) as nat);
        let before = up::tunnelled(peers, own, own_relay, (n - 1) as nat);
        let at = up::tunnelled(peers, own, own_relay, n);
        assert forall|i: int|
            0 <= i < n && up::planned(#[trigger] peers[i], own, own_relay) is Tunnel implies
            at.contains(i) by {
            if i < n - 1 {
                let k = choose|k: int| 0 <= k < before.len() && before[k] == i;
                assert(at[k] == i);
            } else {
                assert(at[at.len() - 1] == i);
            }
        }
    }
}

proof fn lemma_skipped(peers: Seq<ListedPeer>, own: Seq<u8>, own_relay: Option<Endpoint>, n: nat)
    requires
        n <= peers.len(),
    ensures
        forall|i: int|
            0 <= i < n && up::planned(#[trigger] peers[i], own, own_relay) is Skipped
                ==> up::skipped(peers, own, own_relay, n).contains(peers[i].entry.ip@),
        (forall|i: int|
            0 <= i < n ==> !(up::planned(#[trigger] peers[i], own, own_relay) is Failed))
            ==> up::skipped(peers, own, own_relay, n).len() + up::tunnelled(
            peers,
            own,
            own_relay,
            n,
        ).len() == n,
    decreases n,
{
    if n > 0 {
        lemma_skipped(peers, own, own_relay, (n - 1) as nat);
        let before = up::skipped(peers, own, own_relay, (n - 1) as nat);
        let all = up::skipped(peers, own, own_relay, n);
        assert forall|i: int|
            0 <= i < n && up::planned(#[trigger] peers[i], own, own_relay) is Skipped implies
            all.contains(peers[i].entry.ip@) by {
            if i < n - 1 {
                let k = choose|k: int| 0 <= k < before.len() && before[k] == peers[i].entry.ip@;
                assert(all[k] == peers[i].entry.ip@);
            } else {
                assert(all[all.len() - 1] == peers[i].entry.ip@);
            }
        }
    }
}

/// A plan names every peer once: a peer that can be reached gets exactly one tunnel,
/// which leads to it under its place in the list, counted from one; the addresses of
/// the others stand among those that are skipped. The tunnels keep the order of the
/// list.
pub proof fn law_plan_names_every_peer(
    peers: Seq<ListedPeer>,
    own: Seq<u8>,
    own_relay: Option<Endpoint>,
    plan: Plan,
    i: int,
    key: Seq<u8>,
    ip: [u8; 4],
)
    requires
        own.len() == 32,
        up::laid_out(peers, own, own_relay, Ok(plan)),
        0 <= i < peers.len(),
        holds(peers[i], key, ip),
    ensures
        plan.peers@.len() + plan.skipped@.len() == peers.len(),
        announces(peers[i]) || peers[i].entry.via_relay is Some ==> exists|k: int|
            0 <= k < plan.peers@.len() && leads_to(
                #[trigger] plan.peers@[k],
                peers[i],
                key,
                ip,
                own,
                own_relay,
                i + 1,
            ),
        !announces(peers[i]) && peers[i].entry.via_relay is None ==> {
            &&& exists|k: int|
                0 <= k < plan.skipped@.len() && (#[trigger] plan.skipped@[k])@
                    == peers[i].entry.ip@
            &&& forall|k: int|
                0 <= k < plan.peers@.len() ==> (#[trigger] plan.peers@[k]).local_sender_id != i + 1
        },
        forall|k: int, l: int|
            0 <= k < l < plan.peers@.len() ==> (#[trigger] plan.peers@[k]).local_sender_id < (
            #[trigger] plan.peers@[l]).local_sender_id,
{
    let at = up::tunnelled(peers, own, own_relay, peers.len());
    lemma_tunnelled(peers, own, own_relay, peers.len());
    lemma_skipped(peers, own, own_relay, peers.len());
    let left = up::skipped(peers, own, own_relay, peers.len());
    assert(crate::cli::platform::texts(plan.skipped@).len() == plan.skipped@.len());
    assert(!(up::planned(peers[i], own, own_relay) is Failed));
    if announces(peers[i]) || peers[i].entry.via_relay is Some {
        assert(up::planned(peers[i], own, own_relay) is Tunnel);
        let k = choose|k: int| 0 <= k < at.len() && at[k] == i;
        assert(up::configures(plan.peers@[k], up::planned(peers[i], own, own_relay), i + 1));
        law_tunnel_leads_to_peer(plan.peers@[k], peers[i], key, ip, own, own_relay, i + 1);
    } else {
        assert(up::planned(peers[i], own, own_relay) is Skipped);
        let k = choose|k: int| 0 <= k < left.len() && left[k] == peers[i].entry.ip@;
        assert(plan.skipped@[k]@ == left[k]);
        assert forall|k: int| 0 <= k < plan.peers@.len() implies (
        #[trigger] plan.peers@[k]).local_sender_id != i + 1 by {
            assert(at[k] + 1 == plan.peers@[k].local_sender_id);
        }
    }
    assert forall|k: int, l: int| 0 <= k < l < plan.peers@.len() implies (
    #[trigger] plan.peers@[k]).local_sender_id < (#[trigger] plan.peers@[l]).local_sender_id by {
        assert(at[k] + 1 == plan.peers@[k].local_sender_id);
        assert(at[l] + 1 == plan.peers@[l].local_sender_id);
    }
}

/// A plan is made exactly where every peer has a key, no peer names a relay that is
/// no address, and every peer that can be reached has a mesh address and no endpoint
/// that is no address.
pub proof fn law_when_a_plan_is_made(
    peers: Seq<ListedPeer>,
    own: Seq<u8>,
    own_relay: Option<Endpoint>,
    r: Result<Plan, Error>,
)
    requires
        up::laid_out(peers, own, own_relay, r),
    ensures
        r is Ok <==> forall|i: int|
            0 <= i < peers.len() ==> {
                let p = #[trigger] peers[i];
                &&& encoding::base64_decoded(p.entry.wg_pubkey@) matches Decoded::Bytes(b)
                    && b.len() == 32
                &&& p.entry.via_relay is Some ==> p.relay is Some
                &&& announces(p) ==> p.endpoint is Some
                &&& announces(p) || p.entry.via_relay is Some ==> exists|ip: [u8; 4]|
                    p.entry.ip@ == #[trigger] text::dotted(ip@)
            },
{
    if r is Ok {
        assert forall|i: int| 0 <= i < peers.len() implies {
            let p = #[trigger] peers[i];
            &&& encoding::base64_decoded(p.entry.wg_pubkey@) matches Decoded::Bytes(b) && b.len()
                == 32
            &&& p.entry.via_relay is Some ==> p.relay is Some
            &&& announces(p) ==> p.endpoint is Some
            &&& announces(p) || p.entry.via_relay is Some ==> exists|ip: [u8; 4]|
                p.entry.ip@ == #[trigger] text::dotted(ip@)
        } by {
            assert(!(up::planned(peers[i], own, own_relay) is Failed));
        }
    }
}

/// A peer that appears while the tunnels are up, can be reached and is not known yet
/// gets a session that leads to it; those that there are stay as they are. A peer
/// that is known, or cannot be reached, changes nothing.
pub proof fn law_new_peer_is_welcomed(
    m: TunnelManager,
    p: ListedPeer,
    key: Seq<u8>,
    ip: [u8; 4],
    own: Seq<u8>,
    own_relay: Option<Endpoint>,
    now: Instant,
    clock: Tai64N,
    after: TunnelManager,
)
    requires
        m.wf(),
        own.len() == 32,
        holds(p, key, ip),
        up::welcomed(m, p, own, own_relay, now, clock, after),
    ensures
        ({
            let n = m.peers().len() as int;
            let known = exists|j: int| 0 <= j < n && (#[trigger] m.peers()[j]).config.peer_pub@
                == key;
            if known || (!announces(p) && p.entry.via_relay is None) {
                after.peers() == m.peers()
            } else {
                &&& after.peers().len() == n + 1
                &&& forall|j: int| 0 <= j < n ==> #[trigger] after.peers()[j] == m.peers()[j]
                &&& leads_to(after.peers()[n].config, p, key, ip, own, own_relay, n + 1)
                &&& after.peers()[n].state is HandshakingAsInitiator
                    <==> after.peers()[n].config.is_initiator
                &&& after.peers()[n].state is HandshakingAsResponder
                    <==> !after.peers()[n].config.is_initiator
                &&& after.peers()[n].next_init_at == if after.peers()[n].config.is_initiator {
                    Some(now)
                } else {
                    None
                }
                &&& !after.peers()[n].stale
                &&& after.endpoints()[after.peers()[n].config.peer_endpoint] == n as usize
                &&& after.pubkeys()[after.peers()[n].config.peer_pub] == n as usize
            }
        }),
{
    let n = m.peers().len() as int;
    text::law_dotted_round_trip(ip);
    if let Some(t) = up::discovered(p, own, own_relay) {
        let c = choose|c: PeerConfig| #[trigger]
            up::configures(c, t, n + 1) && if m.pubkeys().contains_key(c.peer_pub) {
                after.unchanged(m)
            } else {
                m.grew(c, now, clock, after)
            };
        law_tunnel_leads_to_peer(c, p, key, ip, own, own_relay, n + 1);
        if m.pubkeys().contains_key(c.peer_pub) {
            assert(m.peers()[m.pubkeys()[c.peer_pub] as int].config.peer_pub@ == key);
        } else {
            assert forall|j: int| 0 <= j < n implies (#[trigger] m.peers()[j]).config.peer_pub@
                != key by {
                assert(m.pubkeys().contains_key(m.peers()[j].config.peer_pub));
                if m.peers()[j].config.peer_pub@ == key {
                    assert(m.peers()[j].config.peer_pub =~= c.peer_pub);
                }
            }
        }
    }
}

/// A node announces what it was told to, else what the environment holds, and else
/// the endpoint that it is bound to.
pub proof fn law_what_is_announced(
    told: Option<Seq<char>>,
    env: Option<Seq<char>>,
    bound: Seq<char>,
)
    ensures
        told is Some ==> up::announced(told, env, bound) == told->0,
        told is None && env is Some ==> up::announced(told, env, bound) == env->0,
        told is None && env is None ==> up::announced(told, env, bound) == bound,
{
}

/// Whether the content of a key file begins as an encrypted one does.
pub open spec fn is_marked(c: Seq<u8>) -> bool {
    c.len() >= 4 && c[0] == 78 && c[1] == 65 && c[2] == 66 && c[3] == 49
}

proof fn lemma_marked(c: Seq<u8>)
    ensures
        keystore::encrypted(c) == is_marked(c),
{
    keystore::lemma_magic();
    if is_marked(c) {
        assert(c.take(4) =~= seq![78u8, 65u8, 66u8, 49u8]);
    }
    if keystore::encrypted(c) {
        assert(c.take(4)[0] == 78 && c.take(4)[1] == 65 && c.take(4)[2] == 66 && c.take(4)[3] == 49);
    }
}

/// An unencrypted key file gives its 32 bytes, with or without a passphrase; one of
/// another length, and one that is not there, gives none.
pub proof fn law_plain_file_is_loaded(
    dir: Seq<char>,
    kind: KeyKind,
    c: Seq<u8>,
    passphrase: Option<Seq<u8>>,
)
    requires
        !is_marked(c),
    ensures
        c.len() == 32 ==> keystore::loaded(dir, kind, Some(c), passphrase) == Ok::<
            Seq<u8>,
            Failure,
        >(c),
        c.len() != 32 ==> keystore::loaded(dir, kind, Some(c), passphrase) is Err,
        keystore::loaded(dir, kind, None, passphrase) == Err::<Seq<u8>, Failure>(
            Failure::NotInitialized(dir),
        ),
{
    lemma_marked(c);
}

/// An encrypted key file gives a key exactly where there is a passphrase, the file has
/// its full length and version, and what follows the header opens under the Argon2id
/// hash of the passphrase and the salt; the key is what it opens to.
pub proof fn law_encrypted_file_is_loaded(
    dir: Seq<char>,
    kind: KeyKind,
    c: Seq<u8>,
    passphrase: Option<Seq<u8>>,
    key: Seq<u8>,
)
    requires
        is_marked(c),
    ensures
        keystore::loaded(dir, kind, Some(c), passphrase) == Ok::<Seq<u8>, Failure>(key) <==> {
            &&& passphrase matches Some(p)
            &&& p.len() <= 0xFFFF_FFFF
            &&& c.len() == 96
            &&& c[4] == 2
            &&& keystore::xchacha_open(
                keystore::argon2id(65536, 3, 1, p, c.subrange(8, 24)),
                c.subrange(24, 48),
                c.skip(48),
            ) == Some(key)
        },
{
    lemma_marked(c);
    keystore::lemma_magic();
}

/// The passphrase in a file is its first line, whether or not anything follows, and
/// whether the line ends in a newline alone or in a carriage return and a newline.
pub proof fn law_passphrase_is_the_first_line(line: Seq<char>, rest: Seq<char>)
    requires
        forall|i: int| 0 <= i < line.len() ==> line[i] != '\n',
        line.len() > 0 ==> line.last() != '\r',
    ensures
        keystore::passphrase_in(line) == encode_utf8(line),
        keystore::passphrase_in(line + seq!['\n'] + rest) == encode_utf8(line),
        keystore::passphrase_in(line + seq!['\r', '\n'] + rest) == encode_utf8(line),
{
    lemma_first_line(line, rest);
    lemma_first_line(line.push('\r'), rest);
    assert(line + seq!['\r', '\n'] + rest =~= line.push('\r') + seq!['\n'] + rest);
    assert(line.push('\r').drop_last() =~= line);
    assert(text::trimmed(line, '\r') == line);
    assert(text::trimmed(line.push('\r'), '\r') == text::trimmed(line, '\r'));
}

proof fn lemma_first_line(line: Seq<char>, rest: Seq<char>)
    requires
        forall|i: int| 0 <= i < line.len() ==> line[i] != '\n',
    ensures
        keystore::first_line(line) == line,
        keystore::first_line(line + seq!['\n'] + rest) == line,
{
    line.index_of_first_ensures('\n');
    let all = line + seq!['\n'] + rest;
    all.index_of_first_ensures('\n');
    assert(all[line.len() as int] == '\n');
    assert forall|i: int| 0 <= i < line.len() implies all[i] != '\n' by {
        assert(all[i] == line[i]);
    }
    assert(all.take(line.len() as int) =~= line);
}

/// The address of a server is kept without the slashes at its end, and otherwise as
/// it is.
pub proof fn law_base_url_has_no_slash_at_its_end(url: Seq<char>)
    ensures
        ({
            let t = text::trimmed(url, '/');
            &&& t == url.take(t.len() as int)
            &&& t.len() > 0 ==> t.last() != '/'
            &&& forall|i: int| t.len() <= i < url.len() ==> url[i] == '/'
        }),
{
    text::law_trimming_takes_the_run(url, '/');
}

/// A passphrase that was read already is used whatever the environment holds; otherwise
/// the one in the environment is. Only where there is none does it matter whether there
/// must be one.
pub proof fn law_which_passphrase_is_used(
    source: keystore::PassphraseSource,
    read: Vec<u8>,
    env: Option<Seq<char>>,
)
    ensures
        keystore::PassphraseSource::Bytes(read).resolved(env) == Ok::<
            Option<Seq<u8>>,
            Failure,
        >(Some(read@)),
        !(source is Bytes) && env is Some ==> source.resolved(env) == Ok::<
            Option<Seq<u8>>,
            Failure,
        >(Some(encode_utf8(env->0))),
        keystore::PassphraseSource::Env.resolved(None) == Ok::<Option<Seq<u8>>, Failure>(None),
        keystore::PassphraseSource::Required.resolved(None) is Err,
{
}

/// The far end of the device is the mesh address of the first tunnel, and the node's own
/// where there is no tunnel.
pub proof fn law_where_the_device_leads(peers: Seq<PeerConfig>, own_ip: Seq<char>)
    ensures
        peers.len() > 0 ==> up::far_end_of(peers, own_ip) == text::dotted(peers[0].peer_ip@),
        peers.len() == 0 ==> up::far_end_of(peers, own_ip) == own_ip,
{
}

/// A node uses the relay that it was told of, where that is an address, and none where it
/// was told of none.
pub proof fn law_told_relay_is_used(told: Seq<char>, parsed: Option<Endpoint>)
    ensures
        up::relay_told(None, parsed) == Ok::<Option<Endpoint>, Failure>(None),
        parsed is Some ==> up::relay_told(Some(told), parsed) == Ok::<Option<Endpoint>, Failure>(
            parsed,
        ),
        parsed is None ==> up::relay_told(Some(told), parsed) is Err,
{
}

/// Both keys of a node come out of two files of 32 bytes that are not encrypted, whether
/// there is a passphrase or not; and where either file gives no key, neither comes out.
pub proof fn law_both_keys_are_opened(
    dir: Seq<char>,
    identity_file: Seq<u8>,
    wg_file: Seq<u8>,
    passphrase: Option<Seq<u8>>,
    r: Result<keystore::OpenedKeys, Error>,
)
    requires
        keystore::OpenedKeys::opened(dir, Some(identity_file), Some(wg_file), passphrase, r),
        !is_marked(identity_file),
        !is_marked(wg_file),
    ensures
        r is Ok <==> identity_file.len() == 32 && wg_file.len() == 32,
        r matches Ok(k) ==> {
            &&& k.identity.secret() == identity_file
            &&& k.wg.secret() == wg_file
            &&& k.identity.matched() && k.wg.matched()
        },
{
    lemma_marked(identity_file);
    lemma_marked(wg_file);
}

/// A node whose registration reaches the server in time, with a key and an address free
/// for it, is registered with the key that it signs with and that of its tunnels.
pub proof fn law_registration_is_accepted(
    id: Identity,
    wg: Seq<u8>,
    timestamp: i64,
    req: RegisterRequest,
    s: AppState,
    peer: IpAddress,
    node_id: Seq<char>,
    token: Seq<char>,
    at: Instant,
    now: i64,
    after: AppState,
    r: Result<RegisterResponse, crate::coord::error::Error>,
    free: u32,
)
    requires
        client::can_sign(id),
        client::asks_to_register(id, wg, timestamp, req),
        now - 300 <= timestamp <= now + 300,
        s.wf(),
        s.addresses_tracked(),
        s.rate_limiter.log(peer, Bucket::Register).len() < 5,
        laws::is_host(free),
        !s.ip_alloc.taken().contains(free),
        laws::is_new(s, node_id, id.public_key(), wg, token),
        i64::MIN <= now + s.token_ttl_secs <= i64::MAX,
        s.registered(peer, req, node_id, token, at, now, after, r),
    ensures
        r matches Ok(resp) && resp.auth_token@ == token && resp.node_id@ == node_id,
        after.db.nodes().len() == s.db.nodes().len() + 1,
        after.db.nodes().last().identity == id.public_key(),
        after.db.nodes().last().wg == wg,
{
    assert(crate::coord::auth::is_recent(timestamp, now));
    assert(crate::coord::routes::register_refusal(req, now) is None);
    laws::law_registration_is_stored(
        s,
        peer,
        req,
        id.public_key(),
        wg,
        node_id,
        token,
        at,
        now,
        after,
        r,
        free,
    );
}

/// A heartbeat that reaches the server in time, under a token of the node that counts,
/// is accepted, and the server then has the endpoint and the relay that the node sent.
pub proof fn law_heartbeat_is_accepted(
    id: Identity,
    endpoint: Seq<char>,
    via_relay: Option<Seq<char>>,
    timestamp: i64,
    req: HeartbeatRequest,
    s: AppState,
    peer: IpAddress,
    header: Option<Seq<char>>,
    at: Instant,
    now: i64,
    after: AppState,
    r: Result<(), crate::coord::error::Error>,
    i: int,
    c: int,
)
    requires
        client::can_sign(id),
        client::shows_life(id, endpoint, via_relay, timestamp, req),
        now - 300 <= timestamp <= now + 300,
        s.wf(),
        laws::speaks(s, header, now, i, c),
        s.db.nodes()[c].identity == id.public_key(),
        s.rate_limiter.log(peer, Bucket::Heartbeat).len() < 30,
        s.noted(peer, header, req, true, at, now, after, r),
    ensures
        r is Ok,
        after.db.nodes()[c].last_endpoint == Some(endpoint),
        after.db.nodes()[c].last_seen == Some(now),
        via_relay is Some ==> after.db.nodes()[c].via_relay == via_relay,
        via_relay is None ==> after.db.nodes()[c].via_relay == s.db.nodes()[c].via_relay,
{
    assert(crate::coord::auth::is_recent(timestamp, now));
    assert(AppState::heartbeat_refusal(s.db.nodes()[c], req, true, now) is None);
    assert(laws::heartbeat_bytes(req) == crate::coord::auth::heartbeat_message(
        req.timestamp,
        req.endpoint@,
        crate::coord::db::chars_of(req.via_relay),
    ));
    laws::law_heartbeat_is_stored(s, peer, header, req, true, at, now, after, r, i, c);
}

/// A request for a new token that reaches the server in time, under a token of the node
/// that counts, is answered with the new token.
pub proof fn law_exchange_is_accepted(
    id: Identity,
    timestamp: i64,
    req: SignedRequest,
    s: AppState,
    peer: IpAddress,
    header: Option<Seq<char>>,
    token: Seq<char>,
    at: Instant,
    now: i64,
    after: AppState,
    r: Result<RefreshResponse, crate::coord::error::Error>,
    i: int,
    c: int,
)
    requires
        client::can_sign(id),
        client::asks_for_token(id, timestamp, req),
        now - 300 <= timestamp <= now + 300,
        s.wf(),
        laws::speaks(s, header, now, i, c),
        s.db.nodes()[c].identity == id.public_key(),
        s.rate_limiter.log(peer, Bucket::Token).len() < 10,
        i64::MIN <= now + s.token_ttl_secs <= i64::MAX,
        forall|k: int| 0 <= k < s.db.tokens().len() ==> (#[trigger] s.db.tokens()[k]).token != token,
        s.refreshed(peer, header, req, token, at, now, after, r),
    ensures
        r matches Ok(resp) && resp.auth_token@ == token && resp.auth_token_expires_at == now
            + s.token_ttl_secs,
{
    assert(crate::coord::auth::is_recent(timestamp, now));
    assert(crate::coord::routes::signed_refusal(
        id.public_key(),
        crate::coord::auth::refresh_message(timestamp),
        req.signature@,
        timestamp,
        now,
    ) is None);
    laws::law_exchange_is_stored(s, peer, header, req, token, at, now, after, r, i, c);
}

/// A request to be deleted that reaches the server in time, under a token of the node
/// that counts, takes the node out of the directory.
pub proof fn law_deletion_is_accepted(
    id: Identity,
    timestamp: i64,
    req: SignedRequest,
    s: AppState,
    peer: IpAddress,
    header: Option<Seq<char>>,
    at: Instant,
    now: i64,
    after: AppState,
    r: Result<(), crate::coord::error::Error>,
    i: int,
    c: int,
    ip: [u8; 4],
)
    requires
        client::can_sign(id),
        client::asks_to_be_deleted(id, timestamp, req),
        now - 300 <= timestamp <= now + 300,
        s.wf(),
        laws::speaks(s, header, now, i, c),
        s.db.nodes()[c].identity == id.public_key(),
        s.db.nodes()[c].ip == text::dotted(ip@),
        s.rate_limiter.log(peer, Bucket::Token).len() < 10,
        s.deleted(peer, header, req, at, now, after, r),
    ensures
        r is Ok,
        after.db.nodes() == s.db.nodes().remove(c),
{
    assert(crate::coord::auth::is_recent(timestamp, now));
    assert(crate::coord::routes::signed_refusal(
        id.public_key(),
        crate::coord::auth::delete_node_message(timestamp),
        req.signature@,
        timestamp,
        now,
    ) is None);
    laws::law_deletion_is_stored(s, peer, header, req, at, now, after, r, i, c, ip);
}

/// Keys are drawn for a node exactly where it has none yet, or they are to be replaced by
/// force, and there is a passphrase of a length that can be used. What comes out of the
/// two files under that passphrase afterwards are the two keys that were drawn.
pub proof fn law_drawn_keys_are_kept(
    server: Seq<char>,
    exists_already: bool,
    force: bool,
    passphrase: Option<Seq<u8>>,
    r: Result<init::Initialized, Error>,
    dir: Seq<char>,
    opened: Result<keystore::OpenedKeys, Error>,
)
    requires
        init::initialized(server, exists_already, force, passphrase, r),
        r matches Ok(i) ==> keystore::OpenedKeys::opened(
            dir,
            Some(i.identity_file@),
            Some(i.wg_file@),
            passphrase,
            opened,
        ),
    ensures
        r is Ok <==> (!exists_already || force) && (passphrase matches Some(p) && p.len()
            <= 0xFFFF_FFFF),
        r matches Ok(i) ==> {
            &&& opened matches Ok(k)
            &&& k.identity.secret() == i.identity.secret()
            &&& k.identity.public_key() == i.identity.public_key()
            &&& k.wg.secret() == i.wg.secret()
            &&& k.wg.public_key() == i.wg.public_key()
            &&& i.config.server.url@ == server
        },
{
    if let Ok(i) = r {
        let p = passphrase->0;
        assert(keystore::loaded(dir, KeyKind::Identity, Some(i.identity_file@), Some(p)) is Ok);
        assert(keystore::loaded(dir, KeyKind::Wg, Some(i.wg_file@), Some(p)) is Ok);
    }
}

} // verus!
