//! What the handshake and data messages look like on the wire, and which are
//! accepted.

use crate::bytes;
use crate::crypto::handshake;
use crate::crypto::mac;
use crate::crypto::noise;
use crate::crypto::noise::NoiseParty;
use crate::crypto::timestamp::Tai64N;
use crate::crypto::transport::Transport;
use vstd::prelude::*;
use vstd::utf8::*;

verus! {

/// A 32-bit word is spelled with its lowest byte first in a message, and with its
/// highest byte first in an address.
pub proof fn law_order_of_bytes(v: u32)
    ensures
        bytes::le32(v).len() == 4,
        bytes::be32(v).len() == 4,
        v == bytes::le32(v)[0] + 256 * bytes::le32(v)[1] + 65_536 * bytes::le32(v)[2] + 16_777_216
            * bytes::le32(v)[3],
        v == bytes::be32(v)[3] + 256 * bytes::be32(v)[2] + 65_536 * bytes::be32(v)[1] + 16_777_216
            * bytes::be32(v)[0],
{
    let a = v as u8;
    let b = (v >> 8) as u8;
    let c = (v >> 16) as u8;
    let d = (v >> 24) as u8;
    assert(v == (a as u32) + 256 * (b as u32) + 65_536 * (c as u32) + 16_777_216 * (d as u32)
        && a as u32 <= 255 && b as u32 <= 255 && c as u32 <= 255 && d as u32 <= 255)
        by (bit_vector)
        requires
            a == v as u8,
            b == (v >> 8) as u8,
            c == (v >> 16) as u8,
            d == (v >> 24) as u8,
    ;
}

/// A 64-bit word is its upper half and its lower half, the lower half first in a
/// message and the upper half first in a signed request or a timestamp.
pub proof fn law_halves_of_words(v: u64)
    ensures
        bytes::le64(v) == bytes::le32((v % 0x1_0000_0000) as u32) + bytes::le32(
            (v / 0x1_0000_0000) as u32,
        ),
        bytes::be64(v) == bytes::be32((v / 0x1_0000_0000) as u32) + bytes::be32(
            (v % 0x1_0000_0000) as u32,
        ),
{
    let h = (v / 0x1_0000_0000) as u32;
    let l = (v % 0x1_0000_0000) as u32;
    assert(l as u8 == v as u8 && (l >> 8) as u8 == (v >> 8) as u8 && (l >> 16) as u8 == (v
        >> 16) as u8 && (l >> 24) as u8 == (v >> 24) as u8 && h as u8 == (v >> 32) as u8 && (h
        >> 8) as u8 == (v >> 40) as u8 && (h >> 16) as u8 == (v >> 48) as u8 && (h >> 24) as u8
        == (v >> 56) as u8) by (bit_vector)
        requires
            h == (v / 0x1_0000_0000) as u32,
            l == (v % 0x1_0000_0000) as u32,
    ;
    assert(bytes::le64(v) =~= bytes::le32(l) + bytes::le32(h));
    assert(bytes::be64(v) =~= bytes::be32(h) + bytes::be32(l));
}

/// Whether the bytes of a message after the first `n` are the code over those `n`
/// for the holder of a key.
pub open spec fn ends_in_code(frame: Seq<u8>, n: int, public: Seq<u8>) -> bool {
    frame.subrange(n, n + 16) == mac::blake2s_mac(
        mac::blake2s(encode_utf8("mac1----"@) + public),
        frame.subrange(0, n),
    )
}

/// An INIT has 148 bytes: the byte one and three zeros, the sender, the Noise
/// message, sixteen zeros, and the code for the responder.
pub proof fn law_init_layout(
    p: NoiseParty,
    id: u32,
    time: Tai64N,
    peer_public: Seq<u8>,
    q: NoiseParty,
    frame: Seq<u8>,
)
    requires
        handshake::init_written(p, id, time, peer_public, q, frame),
    ensures
        frame.len() == 148,
        frame[0] == 1 && frame[1] == 0 && frame[2] == 0 && frame[3] == 0,
        frame.subrange(4, 8) == bytes::le32(id),
        frame.subrange(8, 116) == noise::noise_message(p, q.ephemeral->0, time.wire()),
        forall|k: int| 116 <= k < 132 ==> #[trigger] frame[k] == 0,
        ends_in_code(frame, 132, peer_public),
{
    let part = handshake::init_noise(frame);
    let body = handshake::init_body(id, part);
    assert(body.len() == 132);
    assert(frame.subrange(4, 8) =~= bytes::le32(id));
    assert(frame.subrange(0, 132) =~= body);
    assert(frame.subrange(132, 148) =~= mac::blake2s_mac(mac::mac1_key_of(peer_public), body));
}

/// A RESPONSE has 92 bytes: the byte two and three zeros, the sender, the sender of
/// the INIT that it answers, the Noise message, sixteen zeros, and the code for the
/// initiator.
pub proof fn law_response_layout(
    p: NoiseParty,
    id: u32,
    init: Seq<u8>,
    q: NoiseParty,
    response: Seq<u8>,
)
    requires
        init.len() >= 148,
        handshake::response_written(p, id, init, q, response),
    ensures
        response.len() == 92,
        response[0] == 2 && response[1] == 0 && response[2] == 0 && response[3] == 0,
        response.subrange(4, 8) == bytes::le32(id),
        response.subrange(8, 12) == init.subrange(4, 8),
        forall|k: int| 60 <= k < 76 ==> #[trigger] response[k] == 0,
        ends_in_code(response, 76, p.after_reading(init.subrange(8, 116)).remote_public->0),
{
    let mid = p.after_reading(handshake::init_noise(init));
    let part = handshake::response_noise(response);
    let body = handshake::response_body(id, init.subrange(4, 8), part);
    assert(body.len() == 76);
    assert(response.subrange(4, 8) =~= bytes::le32(id));
    assert(response.subrange(8, 12) =~= init.subrange(4, 8));
    assert(response.subrange(0, 76) =~= body);
    assert(response.subrange(76, 92) =~= mac::blake2s_mac(
        mac::mac1_key_of(mid.remote_public->0),
        body,
    ));
}

/// Data has the byte four and three zeros in front, then the receiver and the number
/// of frames that were begun before, and then the sealed bytes.
pub proof fn law_frame_layout(t: Transport, receiver: u32, data: Seq<u8>)
    ensures
        ({
            let frame = t.next_frame(receiver, data);
            &&& frame[0] == 4 && frame[1] == 0 && frame[2] == 0 && frame[3] == 0
            &&& frame.subrange(4, 8) == bytes::le32(receiver)
            &&& frame.subrange(8, 16) == bytes::le64(t.counter())
            &&& frame.skip(16) == noise::noise_seal(
                t.session().send_key,
                t.session().send_nonce,
                data,
            )
        }),
{
    let frame = t.next_frame(receiver, data);
    assert(frame.subrange(4, 8) =~= bytes::le32(receiver));
    assert(frame.subrange(8, 16) =~= bytes::le64(t.counter()));
    assert(frame.skip(16) =~= noise::noise_seal(
        t.session().send_key,
        t.session().send_nonce,
        data,
    ));
}

/// An INIT is accepted exactly where it begins with the byte one, has its full
/// length, ends in the code for the responder, holds a Noise message that the
/// responder can read and has not read yet, and its time lies at most two minutes
/// away from the responder's clock.
pub proof fn law_which_inits_are_accepted(
    p: NoiseParty,
    now: u64,
    own_public: Seq<u8>,
    frame: Seq<u8>,
)
    requires
        !p.initiator,
        p.messages.len() == 0,
        now < 0x4000_0000_0000_0000,
        noise::noise_payload(p, frame.subrange(8, 116)) matches Some((stamp, _))
            ==> bytes::from_be64(stamp) < 0x4000_0000_0000_0000,
    ensures
        handshake::init_refusal(p, now, own_public, frame) is None <==> {
            &&& frame.len() >= 148
            &&& frame[0] == 1
            &&& ends_in_code(frame, 132, own_public)
            &&& noise::noise_payload(p, frame.subrange(8, 116)) matches Some((stamp, _)) && now
                <= bytes::from_be64(stamp) + 120 && bytes::from_be64(stamp) <= now + 120
        },
{
}

/// A RESPONSE is accepted exactly where it begins with the byte two, has its full
/// length, is for this side, ends in the code for it, and holds a Noise message that
/// it can read.
pub proof fn law_which_responses_are_accepted(
    p: NoiseParty,
    id: u32,
    own_public: Seq<u8>,
    frame: Seq<u8>,
)
    requires
        p.initiator,
        p.messages.len() == 1,
    ensures
        handshake::response_refusal(p, id, own_public, frame) is None <==> {
            &&& frame.len() >= 92
            &&& frame[0] == 2
            &&& bytes::from_le32(frame.subrange(8, 12)) == id
            &&& ends_in_code(frame, 76, own_public)
            &&& noise::noise_payload(p, frame.subrange(12, 60)) is Some
        },
{
}

/// A frame is accepted exactly where it begins with the byte four, has room for the
/// header and the seal, is not too long, and what follows the header opens with the
/// key and the nonce that are expected; what it opens to is the plaintext.
pub proof fn law_which_frames_are_accepted(t: Transport, frame: Seq<u8>, room: nat)
    requires
        t.session().recv_nonce < u64::MAX,
    ensures
        t.refusal(frame, room) is None <==> {
            &&& frame.len() >= 32
            &&& frame[0] == 4
            &&& frame.len() <= room + 32
            &&& frame.len() <= 16 + 65_535
            &&& noise::noise_open(
                t.session().recv_key,
                t.session().recv_nonce,
                frame.skip(16),
            ) is Some
        },
        t.refusal(frame, room) is None ==> noise::noise_open(
            t.session().recv_key,
            t.session().recv_nonce,
            frame.skip(16),
        ) == Some(t.plaintext(frame)),
{
}

/// A timestamp lies 37 seconds ahead of Unix time. Two timestamps lie as far apart, and in
/// the same order, as the moments that they stand for, and are within the window of a
/// handshake exactly where the moments lie at most two minutes apart.
pub proof fn law_timestamps_keep_distances(
    t: Tai64N,
    secs: u64,
    nanos: u32,
    u: Tai64N,
    other_secs: u64,
    other_nanos: u32,
)
    requires
        t.stamps(secs, nanos),
        u.stamps(other_secs, other_nanos),
    ensures
        t.secs() == secs + 37,
        t.subsec() == nanos,
        t.before(u) <==> secs < other_secs || (secs == other_secs && nanos < other_nanos),
        secs < 0x4000_0000_0000_0000 && other_secs < 0x4000_0000_0000_0000 ==> (
        handshake::within_window(t.secs(), u.secs()) <==> secs <= other_secs + 120 && other_secs
            <= secs + 120),
{
}

} // verus!
