//! The two-message handshake: INIT from the initiator, RESPONSE from the
//! responder, each a Noise message in a fixed frame that ends in a code over
//! everything in front of it.

use crate::bytes;
use crate::crypto::error::{Error, NoiseFailure};
use crate::crypto::keys;
use crate::crypto::keys::Keypair;
use crate::crypto::mac;
use crate::crypto::noise;
use crate::crypto::noise::NoiseParty;
use crate::crypto::timestamp::Tai64N;
use crate::crypto::transport::Transport;
use snow::HandshakeState;
use vstd::prelude::*;
use vstd::utf8::*;

verus! {

/// The length of an INIT.
pub const INIT_SIZE: usize = 148;

/// The length of a RESPONSE.
pub const RESPONSE_SIZE: usize = 92;

/// The length of a cookie reply.
pub const COOKIE_SIZE: usize = 64;

/// The first byte of an INIT.
pub const MESSAGE_TYPE_INIT: u8 = 0x01;

/// The first byte of a RESPONSE.
pub const MESSAGE_TYPE_RESPONSE: u8 = 0x02;

/// The first byte of a cookie reply.
pub const MESSAGE_TYPE_COOKIE: u8 = 0x03;

/// The first byte of a relayed message.
pub const MESSAGE_TYPE_RELAY: u8 = 0x05;

/// How far the clocks of the two sides may lie apart.
pub const REPLAY_WINDOW_SECONDS: u64 = 120;

/// What every handshake is bound to.
pub const WG_IDENTIFIER: &'static str = "WireGuard v1 zx2c4 Jason@zx2c4.com";

/// The prologue of every handshake.
pub open spec fn prologue() -> Seq<u8> {
    encode_utf8(WG_IDENTIFIER@)
}

/// Sixteen zero bytes, where a cookie echo would stand.
pub open spec fn no_echo() -> Seq<u8> {
    Seq::new(16, |i: int| 0u8)
}

/// A frame that ends in its code under the key of `public`.
pub open spec fn with_code(body: Seq<u8>, public: Seq<u8>) -> Seq<u8> {
    body + mac::blake2s_mac(mac::mac1_key_of(public), body)
}

/// Whether the last 16 of `len` bytes are the code over the bytes before them.
pub open spec fn code_is_valid(frame: Seq<u8>, len: int, public: Seq<u8>) -> bool {
    frame.subrange(len - 16, len) == mac::blake2s_mac(
        mac::mac1_key_of(public),
        frame.subrange(0, len - 16),
    )
}

/// An INIT in front of its code.
pub open spec fn init_body(sender_id: u32, noise_part: Seq<u8>) -> Seq<u8> {
    seq![MESSAGE_TYPE_INIT, 0u8, 0u8, 0u8] + bytes::le32(sender_id) + noise_part + no_echo()
}

/// A RESPONSE in front of its code. The receiver is the sender of the INIT, in
/// its encoded form.
pub open spec fn response_body(sender_id: u32, receiver: Seq<u8>, noise_part: Seq<u8>) -> Seq<u8> {
    seq![MESSAGE_TYPE_RESPONSE, 0u8, 0u8, 0u8] + bytes::le32(sender_id) + receiver + noise_part
        + no_echo()
}

/// The Noise message inside an INIT.
pub open spec fn init_noise(frame: Seq<u8>) -> Seq<u8> {
    frame.subrange(8, 116)
}

/// The Noise message inside a RESPONSE.
pub open spec fn response_noise(frame: Seq<u8>) -> Seq<u8> {
    frame.subrange(12, 60)
}

/// Seconds read as a signed 64-bit number.
pub open spec fn signed_seconds(s: u64) -> int {
    if s <= i64::MAX {
        s as int
    } else {
        s - 0x1_0000_0000_0000_0000
    }
}

/// Whether two clock readings lie within the replay window.
pub open spec fn within_window(a: u64, b: u64) -> bool {
    -120 <= signed_seconds(a) - signed_seconds(b) <= 120
}

fn signed(s: u64) -> (r: i128)
    ensures
        r == signed_seconds(s),
{
    if s <= i64::MAX as u64 {
        s as i128
    } else {
        s as i128 - 0x1_0000_0000_0000_0000
    }
}

/// What writing an INIT does to the initiating side `p`, which becomes `q`: the
/// frame holds a fresh Noise message with the timestamp as its payload, which
/// the responder that it is for can read.
pub open spec fn init_written(
    p: NoiseParty,
    id: u32,
    time: Tai64N,
    peer_public: Seq<u8>,
    q: NoiseParty,
    frame: Seq<u8>,
) -> bool {
    let part = init_noise(frame);
    &&& p.messages.len() == 0
    &&& q.ephemeral is Some
    &&& frame.len() == INIT_SIZE
    &&& part == noise::noise_message(p, q.ephemeral->0, time.wire())
    &&& q == (NoiseParty { ephemeral: q.ephemeral, messages: p.messages.push(part), ..p })
    &&& frame == with_code(init_body(id, part), peer_public)
    &&& forall|reader: NoiseParty| #[trigger]
        p.reaches(reader) ==> noise::noise_payload(reader, part) == Some(
            (time.wire(), keys::x25519_public(p.local_secret)),
        )
}

/// Why the initiating side `p`, which answers to `id`, refuses a RESPONSE, if it
/// does.
pub open spec fn response_refusal(
    p: NoiseParty,
    id: u32,
    own_public: Seq<u8>,
    frame: Seq<u8>,
) -> Option<Error> {
    if frame.len() < RESPONSE_SIZE {
        Some(Error::InvalidLength { expected: RESPONSE_SIZE, actual: frame.len() as usize })
    } else if frame[0] != MESSAGE_TYPE_RESPONSE {
        Some(Error::InvalidMessageType(frame[0]))
    } else if bytes::from_le32(frame.subrange(8, 12)) != id {
        Some(Error::InvalidMessageType(frame[0]))
    } else if !code_is_valid(frame, RESPONSE_SIZE as int, own_public) {
        Some(Error::MacInvalid)
    } else if p.my_turn() {
        Some(Error::Noise(NoiseFailure::NotTurnToRead))
    } else if noise::noise_payload(p, response_noise(frame)) is None {
        Some(Error::Noise(NoiseFailure::Decrypt))
    } else {
        None
    }
}

/// Why the responding side `p` refuses an INIT at a given time, if it does.
pub open spec fn init_refusal(
    p: NoiseParty,
    now: u64,
    own_public: Seq<u8>,
    frame: Seq<u8>,
) -> Option<Error> {
    if frame.len() < INIT_SIZE {
        Some(Error::InvalidLength { expected: INIT_SIZE, actual: frame.len() as usize })
    } else if frame[0] != MESSAGE_TYPE_INIT {
        Some(Error::InvalidMessageType(frame[0]))
    } else if p.my_turn() {
        Some(Error::Noise(NoiseFailure::NotTurnToRead))
    } else if p.finished() {
        Some(Error::Noise(NoiseFailure::HandshakeAlreadyFinished))
    } else if noise::noise_payload(p, init_noise(frame)) is None {
        Some(Error::Noise(NoiseFailure::Decrypt))
    } else if !within_window(
        now,
        bytes::from_be64((noise::noise_payload(p, init_noise(frame))->0).0),
    ) {
        Some(Error::InvalidTimestamp)
    } else if !code_is_valid(frame, INIT_SIZE as int, own_public) {
        Some(Error::MacInvalid)
    } else {
        None
    }
}

/// What answering an INIT does to the responding side `p`, which becomes `q`: it
/// has read the INIT's Noise message and written a fresh one of its own, without
/// payload, that the initiator can read.
pub open spec fn response_written(
    p: NoiseParty,
    id: u32,
    frame: Seq<u8>,
    q: NoiseParty,
    response: Seq<u8>,
) -> bool {
    let mid = p.after_reading(init_noise(frame));
    let part = response_noise(response);
    &&& q.ephemeral is Some
    &&& response.len() == RESPONSE_SIZE
    &&& part == noise::noise_message(mid, q.ephemeral->0, Seq::empty())
    &&& q == (NoiseParty { ephemeral: q.ephemeral, messages: mid.messages.push(part), ..mid })
    &&& response == with_code(
        response_body(id, frame.subrange(4, 8), part),
        mid.remote_public->0,
    )
    &&& forall|reader: NoiseParty| #[trigger]
        mid.reaches(reader) ==> noise::noise_payload(reader, part) == Some(
            (Seq::<u8>::empty(), keys::x25519_public(mid.local_secret)),
        )
}

/// Whether `t` is the transport end that the finished side `p` enters. Both
/// sides of a completed handshake derive the same keys.
pub open spec fn session_derived(p: NoiseParty, id: u32, t: Transport) -> bool {
    &&& p.finished()
    &&& t.wf() && t.counter() == 0 && t.id() == id
    &&& t.session() == p.session()
    &&& forall|q: NoiseParty| #[trigger]
        p.completed_with(q) ==> q.session().send_key == t.session().recv_key
            && q.session().recv_key == t.session().send_key
}

/// The side that writes the INIT.
pub struct Initiator {
    state: HandshakeState,
    sender_id: u32,
    local_pub: [u8; 32],
    responder_pub: [u8; 32],
    timestamp: Tai64N,
}

/// The side that answers with a RESPONSE.
pub struct Responder {
    state: HandshakeState,
    sender_id: u32,
    local_pub: [u8; 32],
    current_time: Tai64N,
}

/// Whether the last 16 of `len` bytes are the code over the bytes before them.
pub fn check_code(frame: &[u8], len: usize, public: &[u8; 32]) -> (r: bool)
    requires
        16 <= len <= frame@.len(),
    ensures
        r == code_is_valid(frame@, len as int, public@),
{
    let key = mac::mac1_key(public);
    let expected = mac::compute_mac1(&key, &frame[0..len - 16]);
    bytes::same_bytes(&frame[len - 16..len], &expected)
}

impl Initiator {
    /// The Noise side of the initiator.
    pub closed spec fn party(self) -> NoiseParty {
        noise::noise_party(self.state)
    }

    /// The identifier that the responder is to answer to.
    pub closed spec fn id(self) -> u32 {
        self.sender_id
    }

    /// The initiator's static public key.
    pub closed spec fn own_public(self) -> Seq<u8> {
        self.local_pub@
    }

    /// The responder's static public key.
    pub closed spec fn peer_public(self) -> Seq<u8> {
        self.responder_pub@
    }

    /// The time that the INIT carries.
    pub closed spec fn time(self) -> Tai64N {
        self.timestamp
    }

    /// An initiator plays its role and has exchanged at most two messages.
    pub open spec fn wf(self) -> bool {
        self.party().initiator && self.party().messages.len() <= 2
    }

    /// What writing an INIT does.
    pub open spec fn wrote_init(self, after: Initiator, frame: Seq<u8>) -> bool {
        &&& init_written(
            self.party(),
            self.id(),
            self.time(),
            self.peer_public(),
            after.party(),
            frame,
        )
        &&& after.same_settings(self)
    }

    /// Whether two initiators agree in all but the Noise side.
    pub open spec fn same_settings(self, other: Initiator) -> bool {
        &&& self.id() == other.id()
        &&& self.own_public() == other.own_public()
        &&& self.peer_public() == other.peer_public()
        &&& self.time() == other.time()
    }

    /// Why a RESPONSE is refused, if it is.
    pub open spec fn response_refusal(self, frame: Seq<u8>) -> Option<Error> {
        response_refusal(self.party(), self.id(), self.own_public(), frame)
    }

    /// Whether `t` is the transport end that the initiator enters with a RESPONSE.
    pub open spec fn entered(self, frame: Seq<u8>, t: Transport) -> bool {
        session_derived(self.party().after_reading(response_noise(frame)), self.id(), t)
    }

    /// An initiator that is about to write its INIT.
    pub fn new(
        local: &Keypair,
        remote_pub: &[u8; 32],
        psk: [u8; 32],
        sender_id: u32,
        timestamp: Tai64N,
    ) -> (r: Result<Self, Error>)
        ensures
            r matches Ok(i) && {
                &&& i.wf()
                &&& i.party() == NoiseParty::initiating(
                    prologue(),
                    psk@,
                    local.secret(),
                    remote_pub@,
                )
                &&& i.id() == sender_id
                &&& i.own_public() == local.public_key()
                &&& i.peer_public() == remote_pub@
                &&& i.time() == timestamp
            },
    {
        let secret = local.secret_bytes();
        match noise::build_initiator(
            noise::PROTOCOL_NAME,
            noise::PSK_SLOT,
            WG_IDENTIFIER.as_bytes(),
            &secret,
            remote_pub,
            &psk,
        ) {
            Ok(state) => Ok(
                Self {
                    state,
                    sender_id,
                    local_pub: *local.public(),
                    responder_pub: *remote_pub,
                    timestamp,
                },
            ),
            Err(e) => Err(Error::Noise(noise::failure_of(&e))),
        }
    }

    /// The identifier that the responder is to answer to.
    pub fn sender_id(&self) -> (r: u32)
        ensures
            r == self.id(),
    {
        self.sender_id
    }

    /// Writes the INIT. It can be written once.
    pub fn write_init(&mut self) -> (r: Result<[u8; 148], Error>)
        requires
            old(self).wf(),
        ensures
            final(self).wf(),
            match r {
                Ok(frame) => old(self).wrote_init(*final(self), frame@),
                Err(e) => {
                    &&& old(self).party().messages.len() > 0
                    &&& e == Error::Noise(
                        if old(self).party().my_turn() {
                            NoiseFailure::HandshakeAlreadyFinished
                        } else {
                            NoiseFailure::NotTurnToWrite
                        },
                    )
                    &&& final(self).party() == old(self).party()
                    &&& final(self).same_settings(*old(self))
                },
            },
    {
        let stamp = self.timestamp.to_bytes();
        let mut part = [0u8; 108];
        match noise::write_handshake(&mut self.state, &stamp, &mut part) {
            Ok(_) => {},
            Err(e) => return Err(Error::Noise(noise::failure_of(&e))),
        }
        let mut out = [0u8; 148];
        out[0] = MESSAGE_TYPE_INIT;
        let id = bytes::u32_to_le(self.sender_id);
        bytes::put_bytes(&mut out, 4, &id);
        bytes::put_bytes(&mut out, 8, &part);
        let ghost body = init_body(self.sender_id, part@);
        assert(out@.subrange(0, 132) =~= body);
        let key = mac::mac1_key(&self.responder_pub);
        let code = mac::compute_mac1(&key, &out[0..132]);
        bytes::put_bytes(&mut out, 132, &code);
        assert(out@ =~= with_code(body, self.responder_pub@));
        assert(init_noise(out@) =~= part@);
        Ok(out)
    }

    /// Reads the RESPONSE and enters the session.
    pub fn consume_response(self, response: &[u8]) -> (r: Result<Transport, Error>)
        requires
            self.wf(),
        ensures
            match r {
                Ok(t) => self.response_refusal(response@) is None && self.entered(response@, t),
                Err(e) => self.response_refusal(response@) == Some(e),
            },
    {
        let mut this = self;
        if response.len() < RESPONSE_SIZE {
            return Err(Error::InvalidLength { expected: RESPONSE_SIZE, actual: response.len() });
        }
        if response[0] != MESSAGE_TYPE_RESPONSE {
            return Err(Error::InvalidMessageType(response[0]));
        }
        let receiver_id: u32 = bytes::u32_from_le(&response[8..12]);
        if receiver_id != this.sender_id {
            return Err(Error::InvalidMessageType(response[0]));
        }
        if !check_code(response, RESPONSE_SIZE, &this.local_pub) {
            return Err(Error::MacInvalid);
        }
        let mut payload = [0u8; 256];
        match noise::read_handshake(&mut this.state, &response[12..60], &mut payload) {
            Ok(_) => {},
            Err(e) => return Err(Error::Noise(noise::failure_of(&e))),
        }
        match noise::into_session(this.state) {
            Ok(inner) => Ok(Transport::new(inner, this.sender_id)),
            Err(e) => Err(Error::Noise(noise::failure_of(&e))),
        }
    }
}

impl Responder {
    /// The Noise side of the responder.
    pub closed spec fn party(self) -> NoiseParty {
        noise::noise_party(self.state)
    }

    /// The identifier of the responder.
    pub closed spec fn id(self) -> u32 {
        self.sender_id
    }

    /// The responder's static public key.
    pub closed spec fn own_public(self) -> Seq<u8> {
        self.local_pub@
    }

    /// What the responder takes the time to be.
    pub closed spec fn time(self) -> Tai64N {
        self.current_time
    }

    /// A responder plays its role and has exchanged at most two messages.
    pub open spec fn wf(self) -> bool {
        !self.party().initiator && self.party().messages.len() <= 2
    }

    /// Whether two responders agree in all but the Noise side.
    pub open spec fn same_settings(self, other: Responder) -> bool {
        &&& self.id() == other.id()
        &&& self.own_public() == other.own_public()
        &&& self.time() == other.time()
    }

    /// What an INIT carries, where the Noise layer accepts it.
    pub open spec fn init_payload(self, frame: Seq<u8>) -> Option<(Seq<u8>, Seq<u8>)> {
        noise::noise_payload(self.party(), init_noise(frame))
    }

    /// Whether an INIT gets past the Noise layer.
    pub open spec fn init_authenticates(self, frame: Seq<u8>) -> bool {
        &&& frame.len() >= INIT_SIZE
        &&& frame[0] == MESSAGE_TYPE_INIT
        &&& self.party().reads_next()
        &&& self.init_payload(frame) is Some
    }

    /// Why an INIT is refused, if it is.
    pub open spec fn init_refusal(self, frame: Seq<u8>) -> Option<Error> {
        init_refusal(self.party(), self.time().secs(), self.own_public(), frame)
    }

    /// What answering an INIT does.
    pub open spec fn wrote_response(
        self,
        after: Responder,
        frame: Seq<u8>,
        response: Seq<u8>,
    ) -> bool {
        &&& self.init_refusal(frame) is None
        &&& response_written(self.party(), self.id(), frame, after.party(), response)
        &&& after.same_settings(self)
    }

    /// A responder that waits for an INIT.
    pub fn new(local: &Keypair, psk: [u8; 32], sender_id: u32, current_time: Tai64N) -> (r: Result<
        Self,
        Error,
    >)
        ensures
            r matches Ok(s) && {
                &&& s.wf()
                &&& s.party() == NoiseParty::responding(prologue(), psk@, local.secret())
                &&& s.id() == sender_id
                &&& s.own_public() == local.public_key()
                &&& s.time() == current_time
            },
    {
        let secret = local.secret_bytes();
        match noise::build_responder(
            noise::PROTOCOL_NAME,
            noise::PSK_SLOT,
            WG_IDENTIFIER.as_bytes(),
            &secret,
            &psk,
        ) {
            Ok(state) => Ok(Self { state, sender_id, local_pub: *local.public(), current_time }),
            Err(e) => Err(Error::Noise(noise::failure_of(&e))),
        }
    }

    /// The identifier of the responder.
    pub fn sender_id(&self) -> (r: u32)
        ensures
            r == self.id(),
    {
        self.sender_id
    }

    /// Tells the responder the time, against which the next INIT is held.
    pub fn set_current_time(&mut self, t: Tai64N)
        ensures
            final(self).time() == t,
            final(self).party() == old(self).party(),
            final(self).id() == old(self).id(),
            final(self).own_public() == old(self).own_public(),
    {
        self.current_time = t;
    }

    /// Reads an INIT and writes the RESPONSE. An INIT that authenticates is used
    /// up even where its timestamp or its code is then refused.
    pub fn consume_init(&mut self, init_msg: &[u8]) -> (r: Result<[u8; 92], Error>)
        requires
            old(self).wf(),
        ensures
            final(self).wf(),
            match r {
                Ok(response) => old(self).wrote_response(*final(self), init_msg@, response@),
                Err(e) => {
                    let p = old(self).party();
                    let q = final(self).party();
                    &&& old(self).init_refusal(init_msg@) == Some(e)
                    &&& final(self).same_settings(*old(self))
                    &&& if old(self).init_authenticates(init_msg@) {
                        q == p.after_reading(init_noise(init_msg@))
                    } else {
                        &&& q == (NoiseParty { remote_public: q.remote_public, ..p })
                        &&& !(e matches Error::Noise(NoiseFailure::Decrypt)) ==> q == p
                    }
                },
            },
    {
        if init_msg.len() < INIT_SIZE {
            return Err(Error::InvalidLength { expected: INIT_SIZE, actual: init_msg.len() });
        }
        if init_msg[0] != MESSAGE_TYPE_INIT {
            return Err(Error::InvalidMessageType(init_msg[0]));
        }
        let mut payload = [0u8; 256];
        match noise::read_handshake(&mut self.state, &init_msg[8..116], &mut payload) {
            Ok(_) => {},
            Err(e) => return Err(Error::Noise(noise::failure_of(&e))),
        }
        let stamp: [u8; 12] = bytes::take_array(&payload, 0);
        proof {
            let plain = (old(self).init_payload(init_msg@)->0).0;
            assert(payload@.take(12) == plain);
            assert(stamp@ =~= plain);
        }
        let timestamp = Tai64N::from_bytes(stamp);
        let diff: i128 = signed(self.current_time.seconds()) - signed(timestamp.seconds());
        if diff > REPLAY_WINDOW_SECONDS as i128 || diff < -(REPLAY_WINDOW_SECONDS as i128) {
            return Err(Error::InvalidTimestamp);
        }
        if !check_code(init_msg, INIT_SIZE, &self.local_pub) {
            return Err(Error::MacInvalid);
        }
        let initiator_static = match noise::remote_static(&self.state) {
            Some(k) => k,
            None => return Err(Error::HandshakeIncomplete),
        };
        if initiator_static.len() != 32 {
            return Err(Error::HandshakeIncomplete);
        }
        let initiator_pub: [u8; 32] = bytes::take_array(initiator_static.as_slice(), 0);
        assert(initiator_pub@ =~= initiator_static@);
        let response_key = mac::mac1_key(&initiator_pub);

        let mut part = [0u8; 48];
        let ghost p = noise::noise_party(self.state);
        let empty: [u8; 0] = [];
        assert(empty@ =~= Seq::<u8>::empty());
        match noise::write_handshake(&mut self.state, &empty, &mut part) {
            Ok(_) => {},
            Err(e) => return Err(Error::Noise(noise::failure_of(&e))),
        }
        let mut out = [0u8; 92];
        out[0] = MESSAGE_TYPE_RESPONSE;
        let id = bytes::u32_to_le(self.sender_id);
        bytes::put_bytes(&mut out, 4, &id);
        bytes::put_bytes(&mut out, 8, &init_msg[4..8]);
        bytes::put_bytes(&mut out, 12, &part);
        let ghost body = response_body(self.sender_id, init_msg@.subrange(4, 8), part@);
        assert(out@.subrange(0, 76) =~= body);
        let code = mac::compute_mac1(&response_key, &out[0..76]);
        bytes::put_bytes(&mut out, 76, &code);
        assert(out@ =~= with_code(body, initiator_pub@));
        assert(response_noise(out@) =~= part@);
        Ok(out)
    }

    /// Enters the session, once the RESPONSE is written. Both sides of a completed
    /// handshake derive the same keys.
    pub fn into_transport(self) -> (r: Result<Transport, Error>)
        requires
            self.wf(),
        ensures
            match r {
                Ok(t) => self.derived(t),
                Err(e) => !self.party().finished() && e == Error::Noise(
                    NoiseFailure::HandshakeNotFinished,
                ),
            },
    {
        match noise::into_session(self.state) {
            Ok(inner) => Ok(Transport::new(inner, self.sender_id)),
            Err(e) => Err(Error::Noise(noise::failure_of(&e))),
        }
    }

    /// What entering the session gives.
    pub open spec fn derived(self, t: Transport) -> bool {
        session_derived(self.party(), self.id(), t)
    }
}

/// Whether an initiator addresses a responder: the same prologue and pre-shared
/// key, the responder's own public key, and nothing exchanged yet.
pub open spec fn addresses(i: Initiator, r: Responder) -> bool {
    &&& i.wf() && r.wf()
    &&& fit_together(i.party(), r.party())
    &&& i.peer_public() == r.own_public()
}

proof fn lemma_init_parts(id: u32, part: Seq<u8>, public: Seq<u8>)
    requires
        part.len() == 108,
        mac::blake2s_mac(mac::mac1_key_of(public), init_body(id, part)).len() == 16,
    ensures
        ({
            let frame = with_code(init_body(id, part), public);
            &&& frame.len() == INIT_SIZE
            &&& frame[0] == MESSAGE_TYPE_INIT
            &&& frame.subrange(4, 8) == bytes::le32(id)
            &&& init_noise(frame) == part
            &&& code_is_valid(frame, INIT_SIZE as int, public)
        }),
{
    let frame = with_code(init_body(id, part), public);
    assert(frame.subrange(4, 8) =~= bytes::le32(id));
    assert(init_noise(frame) =~= part);
    assert(frame.subrange(0, 132) =~= init_body(id, part));
    assert(frame.subrange(132, 148) =~= mac::blake2s_mac(
        mac::mac1_key_of(public),
        init_body(id, part),
    ));
}

proof fn lemma_response_parts(id: u32, receiver: Seq<u8>, part: Seq<u8>, public: Seq<u8>)
    requires
        receiver.len() == 4,
        part.len() == 48,
        mac::blake2s_mac(mac::mac1_key_of(public), response_body(id, receiver, part)).len() == 16,
    ensures
        ({
            let frame = with_code(response_body(id, receiver, part), public);
            &&& frame.len() == RESPONSE_SIZE
            &&& frame[0] == MESSAGE_TYPE_RESPONSE
            &&& frame.subrange(4, 8) == bytes::le32(id)
            &&& frame.subrange(8, 12) == receiver
            &&& response_noise(frame) == part
            &&& code_is_valid(frame, RESPONSE_SIZE as int, public)
        }),
{
    let frame = with_code(response_body(id, receiver, part), public);
    assert(frame.subrange(4, 8) =~= bytes::le32(id));
    assert(frame.subrange(8, 12) =~= receiver);
    assert(response_noise(frame) =~= part);
    assert(frame.subrange(0, 76) =~= response_body(id, receiver, part));
    assert(frame.subrange(76, 92) =~= mac::blake2s_mac(
        mac::mac1_key_of(public),
        response_body(id, receiver, part),
    ));
}

/// Whether two sides that have exchanged nothing yet fit together: opposite roles,
/// the same prologue and pre-shared key, and an initiator that knows its responder.
pub open spec fn fit_together(i: NoiseParty, r: NoiseParty) -> bool {
    &&& i.initiator && !r.initiator
    &&& i.messages.len() == 0 && i.ephemeral is None
    &&& r.messages.len() == 0 && r.ephemeral is None
    &&& i.prologue == r.prologue
    &&& i.psk == r.psk
    &&& i.knows(r)
}

/// An INIT is accepted by every responding side that fits and whose clock lies
/// within the replay window, and that side learns the initiator's static public
/// key from it.
pub proof fn law_init_is_readable(
    i: NoiseParty,
    id: u32,
    time: Tai64N,
    peer_public: Seq<u8>,
    w: NoiseParty,
    frame: Seq<u8>,
    r: NoiseParty,
    now: u64,
)
    requires
        fit_together(i, r),
        init_written(i, id, time, peer_public, w, frame),
        within_window(now, time.secs()),
    ensures
        init_refusal(r, now, peer_public, frame) is None,
        noise::noise_payload(r, init_noise(frame)) == Some(
            (time.wire(), keys::x25519_public(i.local_secret)),
        ),
        frame[0] == MESSAGE_TYPE_INIT,
        frame.subrange(4, 8) == bytes::le32(id),
{
    let part = init_noise(frame);
    lemma_init_parts(id, part, peer_public);
    assert(r.messages =~= i.messages);
    assert(i.reaches(r));
    crate::crypto::timestamp::law_wire_round_trip(time);
}

/// A RESPONSE to an initiating side's own INIT is accepted by that side.
pub proof fn law_response_is_readable(
    i: NoiseParty,
    id: u32,
    time: Tai64N,
    peer_public: Seq<u8>,
    w: NoiseParty,
    init: Seq<u8>,
    r: NoiseParty,
    now: u64,
    r_id: u32,
    q: NoiseParty,
    response: Seq<u8>,
)
    requires
        fit_together(i, r),
        init_written(i, id, time, peer_public, w, init),
        within_window(now, time.secs()),
        response_written(r, r_id, init, q, response),
    ensures
        response_refusal(w, id, keys::x25519_public(i.local_secret), response) is None,
        noise::noise_payload(w, response_noise(response)) == Some(
            (Seq::<u8>::empty(), keys::x25519_public(r.local_secret)),
        ),
        response[0] == MESSAGE_TYPE_RESPONSE,
        response.subrange(4, 8) == bytes::le32(r_id),
{
    law_init_is_readable(i, id, time, peer_public, w, init, r, now);
    let m1 = init_noise(init);
    let m2 = response_noise(response);
    let p = r.after_reading(m1);
    lemma_response_parts(r_id, init.subrange(4, 8), m2, keys::x25519_public(i.local_secret));
    bytes::lemma_le32_round_trip(id);
    lemma_reply_reaches(i, w, m1, time.wire(), r);
    assert(p.reaches(w));
}

/// Two sides that fit together and exchange their messages enter sessions in which
/// each encrypts with the key with which the other decrypts.
pub proof fn law_sessions_match(
    i: NoiseParty,
    id: u32,
    time: Tai64N,
    peer_public: Seq<u8>,
    w: NoiseParty,
    init: Seq<u8>,
    r: NoiseParty,
    now: u64,
    r_id: u32,
    q: NoiseParty,
    response: Seq<u8>,
    t: Transport,
)
    requires
        fit_together(i, r),
        init_written(i, id, time, peer_public, w, init),
        within_window(now, time.secs()),
        response_written(r, r_id, init, q, response),
        session_derived(q, r_id, t),
    ensures
        ({
            let s = w.after_reading(response_noise(response)).session();
            &&& s.send_key == t.session().recv_key && s.recv_key == t.session().send_key
            &&& s.send_nonce == t.session().recv_nonce && s.recv_nonce == t.session().send_nonce
        }),
{
    law_init_is_readable(i, id, time, peer_public, w, init, r, now);
    law_response_is_readable(i, id, time, peer_public, w, init, r, now, r_id, q, response);
    lemma_completed(
        i,
        w,
        init_noise(init),
        time.wire(),
        r,
        q,
        response_noise(response),
    );
}

/// An INIT is accepted by every responder that the initiator addresses and whose
/// clock lies within the replay window, and the responder learns the initiator's
/// static public key from it.
pub proof fn law_init_is_accepted(i: Initiator, after: Initiator, frame: Seq<u8>, r: Responder)
    requires
        addresses(i, r),
        i.wrote_init(after, frame),
        within_window(r.time().secs(), i.time().secs()),
    ensures
        r.init_refusal(frame) is None,
        r.init_payload(frame) == Some(
            (i.time().wire(), keys::x25519_public(i.party().local_secret)),
        ),
{
    law_init_is_readable(
        i.party(),
        i.id(),
        i.time(),
        i.peer_public(),
        after.party(),
        frame,
        r.party(),
        r.time().secs(),
    );
}

/// A RESPONSE to an initiator's own INIT is accepted by that initiator.
pub proof fn law_response_is_accepted(
    i: Initiator,
    i_waiting: Initiator,
    init: Seq<u8>,
    r: Responder,
    r_done: Responder,
    response: Seq<u8>,
)
    requires
        addresses(i, r),
        i.own_public() == keys::x25519_public(i.party().local_secret),
        i.wrote_init(i_waiting, init),
        within_window(r.time().secs(), i.time().secs()),
        r.wrote_response(r_done, init, response),
    ensures
        i_waiting.response_refusal(response) is None,
        noise::noise_payload(i_waiting.party(), response_noise(response)) == Some(
            (Seq::<u8>::empty(), keys::x25519_public(r.party().local_secret)),
        ),
{
    law_response_is_readable(
        i.party(),
        i.id(),
        i.time(),
        i.peer_public(),
        i_waiting.party(),
        init,
        r.party(),
        r.time().secs(),
        r.id(),
        r_done.party(),
        response,
    );
}

/// A handshake between two sides that address each other completes: the INIT is
/// accepted, the RESPONSE is accepted, and each side encrypts with the key with
/// which the other decrypts.
pub proof fn law_handshake_derives_matching_keys(
    i: Initiator,
    i_waiting: Initiator,
    init: Seq<u8>,
    r: Responder,
    r_done: Responder,
    response: Seq<u8>,
    t: Transport,
    u: Transport,
)
    requires
        addresses(i, r),
        i.own_public() == keys::x25519_public(i.party().local_secret),
        i.wrote_init(i_waiting, init),
        within_window(r.time().secs(), i.time().secs()),
        r.wrote_response(r_done, init, response),
        r_done.derived(t),
        i_waiting.entered(response, u),
    ensures
        r.init_refusal(init) is None,
        i_waiting.response_refusal(response) is None,
        u.in_step_with(t),
        t.in_step_with(u),
{
    law_init_is_accepted(i, i_waiting, init, r);
    law_response_is_accepted(i, i_waiting, init, r, r_done, response);
    law_sessions_match(
        i.party(),
        i.id(),
        i.time(),
        i.peer_public(),
        i_waiting.party(),
        init,
        r.party(),
        r.time().secs(),
        r.id(),
        r_done.party(),
        response,
        t,
    );
}

/// The reply to a message reaches the side that wrote the message.
proof fn lemma_reply_reaches(
    i: NoiseParty,
    w: NoiseParty,
    m1: Seq<u8>,
    stamp: Seq<u8>,
    r: NoiseParty,
)
    requires
        i.initiator && !r.initiator,
        i.messages.len() == 0 && i.ephemeral is None,
        r.messages.len() == 0,
        i.prologue == r.prologue && i.psk == r.psk,
        i.knows(r),
        w.ephemeral is Some,
        w == (NoiseParty { ephemeral: w.ephemeral, messages: i.messages.push(m1), ..i }),
        m1 == noise::noise_message(i, w.ephemeral->0, stamp),
        noise::noise_payload(r, m1) == Some((stamp, keys::x25519_public(i.local_secret))),
    ensures
        r.after_reading(m1).reaches(w),
{
    let p = r.after_reading(m1);
    assert(w.messages =~= seq![m1]);
    assert(p.messages =~= seq![m1]);
    assert(w.before_writing() =~= i);
    assert(w.messages[0] == noise::noise_message(w.before_writing(), w.ephemeral->0, stamp));
}

/// Two sides that exchanged their messages completed one handshake.
proof fn lemma_completed(
    i: NoiseParty,
    w: NoiseParty,
    m1: Seq<u8>,
    stamp: Seq<u8>,
    r: NoiseParty,
    q: NoiseParty,
    m2: Seq<u8>,
)
    requires
        i.initiator && !r.initiator,
        i.messages.len() == 0 && i.ephemeral is None,
        r.messages.len() == 0 && r.ephemeral is None,
        i.prologue == r.prologue && i.psk == r.psk,
        i.knows(r),
        w.ephemeral is Some,
        w == (NoiseParty { ephemeral: w.ephemeral, messages: i.messages.push(m1), ..i }),
        m1 == noise::noise_message(i, w.ephemeral->0, stamp),
        noise::noise_payload(r, m1) == Some((stamp, keys::x25519_public(i.local_secret))),
        q.ephemeral is Some,
        m2 == noise::noise_message(r.after_reading(m1), q.ephemeral->0, Seq::empty()),
        q == (NoiseParty {
            ephemeral: q.ephemeral,
            messages: r.after_reading(m1).messages.push(m2),
            ..r.after_reading(m1)
        }),
        noise::noise_payload(w, m2) == Some(
            (Seq::<u8>::empty(), keys::x25519_public(r.local_secret)),
        ),
    ensures
        q.completed_with(w.after_reading(m2)),
{
    let p = r.after_reading(m1);
    let done = w.after_reading(m2);
    assert(done.messages =~= seq![m1, m2]);
    assert(q.messages =~= seq![m1, m2]);
    assert(done.before_writing() =~= i);
    assert(done.messages[0] == noise::noise_message(
        done.before_writing(),
        done.ephemeral->0,
        stamp,
    ));
    assert(q.messages.take(1) =~= p.messages);
    assert(q.before_writing() =~= p);
    assert(q.messages[1] == noise::noise_message(
        q.before_writing(),
        q.ephemeral->0,
        Seq::<u8>::empty(),
    ));
}

} // verus!
