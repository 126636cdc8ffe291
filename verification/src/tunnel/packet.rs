//! Packets on the wire: the relay envelope and where a packet goes.

use crate::crypto::handshake::MESSAGE_TYPE_RELAY;
use crate::net::Endpoint;
use vstd::prelude::*;

verus! {

/// The length of the relay envelope: the type, the sender's public key and the
/// destination's mesh address.
pub const RELAY_HEADER_SIZE: usize = 37;

/// A packet in its relay envelope.
pub open spec fn relayed(from_pub: Seq<u8>, dest_ip: Seq<u8>, inner: Seq<u8>) -> Seq<u8> {
    seq![MESSAGE_TYPE_RELAY] + from_pub + dest_ip + inner
}

/// The sender that a relay envelope names.
pub open spec fn relay_sender(pkt: Seq<u8>) -> Seq<u8> {
    pkt.subrange(1, 33)
}

/// The destination that a relay envelope names.
pub open spec fn relay_destination(pkt: Seq<u8>) -> Seq<u8> {
    pkt.subrange(33, 37)
}

/// What a relay envelope holds.
pub open spec fn relay_inner(pkt: Seq<u8>) -> Seq<u8> {
    pkt.skip(37)
}

/// A packet that is to be sent.
pub struct Outgoing {
    /// Where to.
    pub to: Endpoint,
    /// What.
    pub packet: Vec<u8>,
}

impl Outgoing {
    /// Whether this is `inner` on its way to a peer: in an envelope to the relay
    /// where there is one, and as it is to the endpoint otherwise.
    pub open spec fn carries(
        self,
        inner: Seq<u8>,
        endpoint: Endpoint,
        via_relay: Option<Endpoint>,
        dest_ip: Seq<u8>,
        from_pub: Seq<u8>,
    ) -> bool {
        match via_relay {
            Some(relay) => self.to == relay && self.packet@ == relayed(from_pub, dest_ip, inner),
            None => self.to == endpoint && self.packet@ == inner,
        }
    }
}

/// Puts a packet into a relay envelope.
pub fn wrap_relay(from_pub: &[u8; 32], dest_ip: &[u8; 4], inner: &[u8]) -> (r: Vec<u8>)
    ensures
        r@ == relayed(from_pub@, dest_ip@, inner@),
{
    let mut out: Vec<u8> = Vec::new();
    out.push(MESSAGE_TYPE_RELAY);
    out.extend_from_slice(from_pub);
    out.extend_from_slice(dest_ip);
    out.extend_from_slice(inner);
    assert(out@ =~= relayed(from_pub@, dest_ip@, inner@));
    out
}

/// Addresses a packet to a peer, through its relay where it has one.
pub fn send_maybe_relay(
    endpoint: Endpoint,
    via_relay: Option<Endpoint>,
    dest_ip: &[u8; 4],
    from_pub: &[u8; 32],
    inner: &[u8],
) -> (r: Outgoing)
    ensures
        r.carries(inner@, endpoint, via_relay, dest_ip@, from_pub@),
{
    match via_relay {
        Some(relay) => Outgoing { to: relay, packet: wrap_relay(from_pub, dest_ip, inner) },
        None => {
            let mut packet: Vec<u8> = Vec::new();
            packet.extend_from_slice(inner);
            assert(packet@ =~= inner@);
            Outgoing { to: endpoint, packet }
        },
    }
}

/// The envelope gives back the sender, the destination and the packet that were
/// put into it.
pub proof fn law_relay_round_trip(from_pub: Seq<u8>, dest_ip: Seq<u8>, inner: Seq<u8>)
    requires
        from_pub.len() == 32,
        dest_ip.len() == 4,
    ensures
        relay_sender(relayed(from_pub, dest_ip, inner)) == from_pub,
        relay_destination(relayed(from_pub, dest_ip, inner)) == dest_ip,
        relay_inner(relayed(from_pub, dest_ip, inner)) == inner,
{
    let pkt = relayed(from_pub, dest_ip, inner);
    assert(relay_sender(pkt) =~= from_pub);
    assert(relay_destination(pkt) =~= dest_ip);
    assert(relay_inner(pkt) =~= inner);
}

} // verus!
