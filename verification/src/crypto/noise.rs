//! The Noise layer: the two-message IKpsk2 handshake and the transport ciphers,
//! as provided by `snow`, with the facts about them that the rest rests on.

use crate::crypto::error::NoiseFailure;
use crate::crypto::keys;
use snow::error::StateProblem;
use snow::{Builder, HandshakeState, TransportState};
use snow::Error as SnowError;
use vstd::prelude::*;

verus! {

/// The Noise protocol of every handshake.
pub const PROTOCOL_NAME: &'static str = "Noise_IKpsk2_25519_ChaChaPoly_BLAKE2s";

/// The slot of the pre-shared key in that protocol.
pub const PSK_SLOT: u8 = 2;

/// The longest message of the Noise protocol.
pub const MAX_MESSAGE: usize = 65535;

/// The length of an authentication tag.
pub const TAG_SIZE: usize = 16;

/// `snow::HandshakeState`: nothing is known of what is inside.
#[verifier::external_type_specification]
#[verifier::external_body]
pub struct ExHandshakeState(snow::HandshakeState);

/// `snow::TransportState`: nothing is known of what is inside.
#[verifier::external_type_specification]
#[verifier::external_body]
pub struct ExTransportState(snow::TransportState);

/// `snow::Error`: nothing is known of what is inside.
#[verifier::external_type_specification]
#[verifier::external_body]
pub struct ExSnowError(SnowError);

/// What one side of a handshake holds.
#[verifier::ext_equal]
pub struct NoiseParty {
    /// Whether this side writes the first message.
    pub initiator: bool,
    /// The bytes both sides bind the handshake to.
    pub prologue: Seq<u8>,
    /// The pre-shared key.
    pub psk: Seq<u8>,
    /// The static secret of this side.
    pub local_secret: Seq<u8>,
    /// The static public key of the other side, once known.
    pub remote_public: Option<Seq<u8>>,
    /// The ephemeral secret of this side, once its message is written.
    pub ephemeral: Option<Seq<u8>>,
    /// The messages exchanged so far.
    pub messages: Seq<Seq<u8>>,
}

/// What one side of an established session holds.
pub struct NoiseSession {
    /// The key for outgoing messages.
    pub send_key: Seq<u8>,
    /// The key for incoming messages.
    pub recv_key: Seq<u8>,
    /// The number of messages sealed so far.
    pub send_nonce: u64,
    /// The number of messages opened so far.
    pub recv_nonce: u64,
}

impl NoiseParty {
    /// An initiator that knows its responder and has written nothing yet.
    pub open spec fn initiating(
        prologue: Seq<u8>,
        psk: Seq<u8>,
        secret: Seq<u8>,
        remote: Seq<u8>,
    ) -> NoiseParty {
        NoiseParty {
            initiator: true,
            prologue,
            psk,
            local_secret: secret,
            remote_public: Some(remote),
            ephemeral: None,
            messages: Seq::empty(),
        }
    }

    /// A responder that has read nothing yet.
    pub open spec fn responding(prologue: Seq<u8>, psk: Seq<u8>, secret: Seq<u8>) -> NoiseParty {
        NoiseParty {
            initiator: false,
            prologue,
            psk,
            local_secret: secret,
            remote_public: None,
            ephemeral: None,
            messages: Seq::empty(),
        }
    }

    /// Whether this side is the next to write.
    pub open spec fn my_turn(self) -> bool {
        self.initiator == (self.messages.len() % 2 == 0)
    }

    /// Whether both messages have been exchanged.
    pub open spec fn finished(self) -> bool {
        self.messages.len() == 2
    }

    /// Whether this side is to write a message now.
    pub open spec fn writes_next(self) -> bool {
        self.my_turn() && !self.finished()
    }

    /// Whether this side is to read a message now.
    pub open spec fn reads_next(self) -> bool {
        !self.my_turn() && !self.finished()
    }

    /// This side after it has read a message that authenticates.
    pub open spec fn after_reading(self, message: Seq<u8>) -> NoiseParty {
        NoiseParty {
            remote_public: Some((noise_payload(self, message)->0).1),
            messages: self.messages.push(message),
            ..self
        }
    }

    /// How much longer the next message is than its payload.
    pub open spec fn overhead(self) -> nat {
        if self.messages.len() == 0 {
            96
        } else {
            48
        }
    }

    /// This side before it wrote its message.
    pub open spec fn before_writing(self) -> NoiseParty {
        NoiseParty {
            ephemeral: None,
            messages: if self.initiator {
                Seq::empty()
            } else {
                self.messages.take(1)
            },
            ..self
        }
    }

    /// Whether the message of this side in the transcript is one that it wrote.
    pub open spec fn wrote_own_message(self) -> bool {
        let k: int = if self.initiator {
            0
        } else {
            1
        };
        self.messages.len() > k && self.ephemeral is Some && exists|payload: Seq<u8>|
            self.messages[k] == #[trigger] noise_message(
                self.before_writing(),
                self.ephemeral->0,
                payload,
            )
    }

    /// Whether the two sides take part in one handshake: opposite roles, the same
    /// prologue, pre-shared key and transcript.
    pub open spec fn shares_run(self, other: NoiseParty) -> bool {
        &&& self.initiator != other.initiator
        &&& self.prologue == other.prologue
        &&& self.psk == other.psk
        &&& self.messages == other.messages
    }

    /// Whether this side knows `other` by its static public key.
    pub open spec fn knows(self, other: NoiseParty) -> bool {
        self.remote_public == Some(keys::x25519_public(other.local_secret))
    }

    /// Whether `reader` is the side that the next message of `self` is for.
    pub open spec fn reaches(self, reader: NoiseParty) -> bool {
        &&& self.shares_run(reader)
        &&& self.knows(reader)
        &&& !self.initiator ==> reader.knows(self) && reader.wrote_own_message()
    }

    /// The session that this side enters after the handshake.
    pub open spec fn session(self) -> NoiseSession {
        self.session_from(noise_split(self))
    }

    /// The session of this side under the keys of the two directions.
    pub open spec fn session_from(self, keys: (Seq<u8>, Seq<u8>)) -> NoiseSession {
        let (to_responder, to_initiator) = keys;
        NoiseSession {
            send_key: if self.initiator {
                to_responder
            } else {
                to_initiator
            },
            recv_key: if self.initiator {
                to_initiator
            } else {
                to_responder
            },
            send_nonce: 0,
            recv_nonce: 0,
        }
    }

    /// Whether the two sides completed one handshake with each other.
    pub open spec fn completed_with(self, other: NoiseParty) -> bool {
        &&& self.finished()
        &&& self.shares_run(other)
        &&& self.knows(other)
        &&& other.knows(self)
        &&& self.wrote_own_message()
        &&& other.wrote_own_message()
    }
}

/// Why a sealed message is refused by a session that has `room` bytes for the
/// plaintext, if it is.
pub open spec fn open_failure(s: NoiseSession, sealed: Seq<u8>, room: nat) -> Option<NoiseFailure> {
    if sealed.len() > MAX_MESSAGE {
        Some(NoiseFailure::Input)
    } else if sealed.len() < TAG_SIZE || room + TAG_SIZE < sealed.len() {
        Some(NoiseFailure::Decrypt)
    } else if s.recv_nonce == u64::MAX {
        Some(NoiseFailure::Exhausted)
    } else if noise_open(s.recv_key, s.recv_nonce, sealed) is None {
        Some(NoiseFailure::Decrypt)
    } else {
        None
    }
}

/// What a handshake state holds.
pub uninterp spec fn noise_party(h: HandshakeState) -> NoiseParty;

/// What a transport state holds.
pub uninterp spec fn noise_session(t: TransportState) -> NoiseSession;

/// Which failure an error of the Noise layer stands for.
pub uninterp spec fn noise_failure(e: SnowError) -> NoiseFailure;

/// The message that a side writes with a given ephemeral secret and payload.
pub uninterp spec fn noise_message(p: NoiseParty, ephemeral: Seq<u8>, payload: Seq<u8>) -> Seq<u8>;

/// The payload of a message and the sender's static public key, as a side reads
/// them, or `None` where the message does not authenticate.
pub uninterp spec fn noise_payload(p: NoiseParty, message: Seq<u8>) -> Option<(Seq<u8>, Seq<u8>)>;

/// The keys of the two directions, initiator to responder first, as a side
/// derives them from a finished handshake.
pub uninterp spec fn noise_split(p: NoiseParty) -> (Seq<u8>, Seq<u8>);

/// A transport message, sealed.
pub uninterp spec fn noise_seal(key: Seq<u8>, nonce: u64, plaintext: Seq<u8>) -> Seq<u8>;

/// A transport message, opened, or `None` where it does not authenticate.
pub uninterp spec fn noise_open(key: Seq<u8>, nonce: u64, sealed: Seq<u8>) -> Option<Seq<u8>>;

/// Tells the variants of `snow::Error` apart. The failures that neither the
/// handshake nor the transport can meet here are lumped together.
#[verifier::external_body]
pub(crate) fn failure_of(e: &SnowError) -> (r: NoiseFailure)
    ensures
        r == noise_failure(*e),
{
    match e {
        SnowError::State(StateProblem::NotTurnToWrite) => NoiseFailure::NotTurnToWrite,
        SnowError::State(StateProblem::NotTurnToRead) => NoiseFailure::NotTurnToRead,
        SnowError::State(StateProblem::HandshakeNotFinished) => NoiseFailure::HandshakeNotFinished,
        SnowError::State(StateProblem::HandshakeAlreadyFinished) => {
            NoiseFailure::HandshakeAlreadyFinished
        },
        SnowError::State(StateProblem::Exhausted) => NoiseFailure::Exhausted,
        SnowError::Input => NoiseFailure::Input,
        SnowError::Decrypt => NoiseFailure::Decrypt,
        _ => NoiseFailure::Other,
    }
}

/// Calls `Builder::build_initiator` with a static key, the responder's static
/// key, a prologue and a pre-shared key. For this protocol, with keys of 32
/// bytes, the builder has all it needs and succeeds; the state starts with no
/// message exchanged.
#[verifier::external_body]
pub(crate) fn build_initiator(
    protocol: &str,
    psk_slot: u8,
    prologue: &[u8],
    secret: &[u8; 32],
    remote: &[u8; 32],
    psk: &[u8; 32],
) -> (r: Result<HandshakeState, SnowError>)
    requires
        protocol@ == PROTOCOL_NAME@,
        psk_slot == PSK_SLOT,
    ensures
        r is Ok,
        noise_party(r->Ok_0) == NoiseParty::initiating(prologue@, psk@, secret@, remote@),
{
    Builder::new(protocol.parse()?)
        .local_private_key(secret)
        .remote_public_key(remote)
        .prologue(prologue)
        .psk(psk_slot, psk)
        .build_initiator()
}

/// Calls `Builder::build_responder` with a static key, a prologue and a
/// pre-shared key. For this protocol, with keys of 32 bytes, the builder
/// succeeds; the state starts with no message exchanged.
#[verifier::external_body]
pub(crate) fn build_responder(
    protocol: &str,
    psk_slot: u8,
    prologue: &[u8],
    secret: &[u8; 32],
    psk: &[u8; 32],
) -> (r: Result<HandshakeState, SnowError>)
    requires
        protocol@ == PROTOCOL_NAME@,
        psk_slot == PSK_SLOT,
    ensures
        r is Ok,
        noise_party(r->Ok_0) == NoiseParty::responding(prologue@, psk@, secret@),
{
    Builder::new(protocol.parse()?)
        .local_private_key(secret)
        .prologue(prologue)
        .psk(psk_slot, psk)
        .build_responder()
}

/// Calls `HandshakeState::write_message` with a buffer that has room for the
/// message. It fails only out of turn or after the end, and then changes
/// nothing. Otherwise it draws a fresh ephemeral key, of which nothing is
/// claimed, and writes the message that belongs to it; the side that the message
/// is for reads the payload and the writer's static public key from it.
#[verifier::external_body]
pub(crate) fn write_handshake(h: &mut HandshakeState, payload: &[u8], out: &mut [u8]) -> (r: Result<
    usize,
    SnowError,
>)
    requires
        noise_party(*old(h)).messages.len() <= 2,
        noise_party(*old(h)).writes_next() ==> old(out)@.len() == noise_party(*old(h)).overhead()
            + payload@.len() && old(out)@.len() <= MAX_MESSAGE,
    ensures
        ({
            let p = noise_party(*old(h));
            match r {
                Ok(n) => {
                    let e = noise_party(*final(h)).ephemeral;
                    &&& p.writes_next()
                    &&& n == final(out)@.len() == old(out)@.len()
                    &&& e is Some
                    &&& final(out)@ == noise_message(p, e->0, payload@)
                    &&& noise_party(*final(h)) == (NoiseParty {
                        ephemeral: e,
                        messages: p.messages.push(final(out)@),
                        ..p
                    })
                    &&& forall|q: NoiseParty| #[trigger]
                        p.reaches(q) ==> noise_payload(q, final(out)@) == Some(
                            (payload@, keys::x25519_public(p.local_secret)),
                        )
                },
                Err(e) => {
                    &&& !p.writes_next()
                    &&& noise_failure(e) == if !p.my_turn() {
                        NoiseFailure::NotTurnToWrite
                    } else {
                        NoiseFailure::HandshakeAlreadyFinished
                    }
                    &&& noise_party(*final(h)) == p
                    &&& final(out)@ == old(out)@
                },
            }
        }),
{
    h.write_message(payload, out)
}

/// Calls `HandshakeState::read_message` with a message that is long enough for
/// its fixed parts and a buffer that has room for the payload. It fails out of
/// turn, after the end, or where the message does not authenticate. A failure
/// leaves the side where it was, except that a responder may have overwritten
/// what it knows of the other side's static key. Nothing is claimed of the
/// buffer beyond the payload, nor after a failure.
#[verifier::external_body]
pub(crate) fn read_handshake(h: &mut HandshakeState, message: &[u8], out: &mut [u8]) -> (r: Result<
    usize,
    SnowError,
>)
    requires
        noise_party(*old(h)).messages.len() <= 2,
        message@.len() <= MAX_MESSAGE,
        noise_party(*old(h)).reads_next() ==> noise_party(*old(h)).overhead() <= message@.len()
            <= old(out)@.len() + noise_party(*old(h)).overhead(),
    ensures
        final(out)@.len() == old(out)@.len(),
        ({
            let p = noise_party(*old(h));
            match r {
                Ok(n) => {
                    &&& p.reads_next()
                    &&& noise_payload(p, message@) matches Some((payload, remote))
                    &&& n == payload.len() == message@.len() - p.overhead()
                    &&& final(out)@.take(n as int) == payload
                    &&& remote.len() == 32
                    &&& p.initiator ==> p.remote_public == Some(remote)
                    &&& noise_party(*final(h)) == p.after_reading(message@)
                },
                Err(e) => {
                    let f = noise_party(*final(h));
                    &&& !p.reads_next() || noise_payload(p, message@) is None
                    &&& noise_failure(e) == if p.my_turn() {
                        NoiseFailure::NotTurnToRead
                    } else if p.finished() {
                        NoiseFailure::HandshakeAlreadyFinished
                    } else {
                        NoiseFailure::Decrypt
                    }
                    &&& f == (NoiseParty { remote_public: f.remote_public, ..p })
                    &&& !p.reads_next() || p.initiator ==> f == p
                },
            }
        }),
{
    h.read_message(message, out)
}

/// Calls `HandshakeState::get_remote_static`: the other side's static public key
/// as far as it is known.
#[verifier::external_body]
pub(crate) fn remote_static(h: &HandshakeState) -> (r: Option<Vec<u8>>)
    ensures
        match r {
            Some(k) => noise_party(*h).remote_public == Some(k@),
            None => noise_party(*h).remote_public is None,
        },
{
    h.get_remote_static().map(|k| k.to_vec())
}

/// Calls `HandshakeState::into_transport_mode`: it succeeds exactly after the
/// second message. The keys depend on the side that derives them alone, and two
/// sides that completed a handshake with each other derive the same ones.
#[verifier::external_body]
pub(crate) fn into_session(h: HandshakeState) -> (r: Result<TransportState, SnowError>)
    requires
        noise_party(h).messages.len() <= 2,
    ensures
        ({
            let p = noise_party(h);
            match r {
                Ok(t) => {
                    &&& p.finished()
                    &&& noise_session(t) == p.session_from(noise_split(p))
                    &&& forall|q: NoiseParty| #[trigger]
                        p.completed_with(q) ==> q.session().send_key == noise_session(t).recv_key
                            && q.session().recv_key == noise_session(t).send_key
                },
                Err(e) => !p.finished() && noise_failure(e) == NoiseFailure::HandshakeNotFinished,
            }
        }),
{
    h.into_transport_mode()
}

/// Calls `TransportState::write_message` with a buffer that has room for the
/// sealed message. It fails only where the message would be too long or the
/// nonces are used up, and then changes nothing. Otherwise it seals under the
/// next nonce, and opening under the same key and nonce gives the plaintext
/// back.
#[verifier::external_body]
pub(crate) fn seal(t: &mut TransportState, plaintext: &[u8], out: &mut [u8]) -> (r: Result<
    usize,
    SnowError,
>)
    requires
        plaintext@.len() + TAG_SIZE <= old(out)@.len(),
    ensures
        ({
            let s = noise_session(*old(t));
            let too_long = plaintext@.len() + TAG_SIZE > MAX_MESSAGE;
            match r {
                Ok(n) => {
                    let sealed = noise_seal(s.send_key, s.send_nonce, plaintext@);
                    &&& !too_long && s.send_nonce < u64::MAX
                    &&& n == plaintext@.len() + TAG_SIZE == sealed.len()
                    &&& final(out)@ == sealed + old(out)@.skip(n as int)
                    &&& noise_session(*final(t)) == (NoiseSession {
                        send_nonce: (s.send_nonce + 1) as u64,
                        ..s
                    })
                    &&& noise_open(s.send_key, s.send_nonce, sealed) == Some(plaintext@)
                },
                Err(e) => {
                    &&& too_long || s.send_nonce == u64::MAX
                    &&& noise_failure(e) == if too_long {
                        NoiseFailure::Input
                    } else {
                        NoiseFailure::Exhausted
                    }
                    &&& noise_session(*final(t)) == s
                    &&& final(out)@ == old(out)@
                },
            }
        }),
{
    t.write_message(plaintext, out)
}

/// Calls `TransportState::read_message`. It fails where the message is too long,
/// too short or too large for the buffer, where the nonces are used up, and
/// where the message does not authenticate under the next nonce; the session is
/// then unchanged, and nothing is claimed of the buffer's contents.
#[verifier::external_body]
pub(crate) fn open(t: &mut TransportState, sealed: &[u8], out: &mut [u8]) -> (r: Result<
    usize,
    SnowError,
>)
    ensures
        final(out)@.len() == old(out)@.len(),
        ({
            let s = noise_session(*old(t));
            match r {
                Ok(n) => {
                    &&& open_failure(s, sealed@, old(out)@.len()) is None
                    &&& noise_open(s.recv_key, s.recv_nonce, sealed@) matches Some(plain)
                    &&& n == plain.len() == sealed@.len() - TAG_SIZE
                    &&& final(out)@ == plain + old(out)@.skip(n as int)
                    &&& noise_session(*final(t)) == (NoiseSession {
                        recv_nonce: (s.recv_nonce + 1) as u64,
                        ..s
                    })
                },
                Err(e) => {
                    &&& open_failure(s, sealed@, old(out)@.len()) == Some(noise_failure(e))
                    &&& noise_session(*final(t)) == s
                },
            }
        }),
{
    t.read_message(sealed, out)
}

} // verus!
