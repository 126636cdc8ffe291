//! The framing of encrypted data: a 16-byte header in front of the sealed bytes.

use crate::bytes;
use crate::crypto::error::{Error, NoiseFailure};
use crate::crypto::noise;
use crate::crypto::noise::NoiseSession;
use snow::TransportState;
use vstd::prelude::*;

verus! {

/// The length of the header.
pub const TRANSPORT_HEADER_SIZE: usize = 16;

/// The first byte of encrypted data.
pub const MESSAGE_TYPE_TRANSPORT: u8 = 0x04;

/// The header of encrypted data: the type, three zero bytes, the receiver and the
/// counter.
pub open spec fn header(receiver_id: u32, counter: u64) -> Seq<u8> {
    seq![MESSAGE_TYPE_TRANSPORT, 0u8, 0u8, 0u8] + bytes::le32(receiver_id) + bytes::le64(counter)
}

/// One end of an established session.
pub struct Transport {
    inner: TransportState,
    sender_id: u32,
    send_counter: u64,
}

impl Transport {
    /// The session underneath.
    pub closed spec fn session(self) -> NoiseSession {
        noise::noise_session(self.inner)
    }

    /// The identifier of this end.
    pub closed spec fn id(self) -> u32 {
        self.sender_id
    }

    /// The number of frames begun so far.
    pub closed spec fn counter(self) -> u64 {
        self.send_counter
    }

    /// No more messages were sealed than frames begun.
    pub open spec fn wf(self) -> bool {
        self.session().send_nonce <= self.counter()
    }

    /// Whether the next frame of `self` is the one that `other` expects.
    pub open spec fn in_step_with(self, other: Transport) -> bool {
        &&& other.session().recv_key == self.session().send_key
        &&& other.session().recv_nonce == self.session().send_nonce
    }

    /// Why a frame is refused by an end that has `room` bytes for the plaintext,
    /// if it is.
    pub open spec fn refusal(self, frame: Seq<u8>, room: nat) -> Option<Error> {
        if frame.len() < TRANSPORT_HEADER_SIZE + noise::TAG_SIZE {
            Some(Error::InvalidLength { expected: 32, actual: frame.len() as usize })
        } else if frame[0] != MESSAGE_TYPE_TRANSPORT {
            Some(Error::InvalidMessageType(frame[0]))
        } else {
            match noise::open_failure(self.session(), frame.skip(16), room) {
                Some(f) => Some(Error::Noise(f)),
                None => None,
            }
        }
    }

    /// The plaintext of a frame that is not refused.
    pub open spec fn plaintext(self, frame: Seq<u8>) -> Seq<u8> {
        noise::noise_open(
            self.session().recv_key,
            self.session().recv_nonce,
            frame.skip(16),
        )->0
    }

    /// The frame with which this end sends a plaintext next.
    pub open spec fn next_frame(self, receiver_id: u32, plaintext: Seq<u8>) -> Seq<u8> {
        header(receiver_id, self.counter()) + noise::noise_seal(
            self.session().send_key,
            self.session().send_nonce,
            plaintext,
        )
    }

    /// Whether every end that is in step, and has room, decrypts a frame of this end
    /// to a plaintext.
    pub open spec fn is_read_as(self, frame: Seq<u8>, plaintext: Seq<u8>) -> bool {
        forall|other: Transport, room: nat| #[trigger]
            self.in_step_with(other) && room >= plaintext.len()
                ==> #[trigger] other.refusal(frame, room) is None && other.plaintext(frame)
                == plaintext
    }

    /// Whether this end is `before` after it sent a frame.
    pub open spec fn sent(self, before: Transport) -> bool {
        let s = before.session();
        &&& self.id() == before.id()
        &&& self.counter() == before.counter() + 1
        &&& self.session() == (NoiseSession { send_nonce: (s.send_nonce + 1) as u64, ..s })
    }

    /// Whether this end is `before` after it was handed a frame: a frame that is
    /// accepted uses up the expected nonce, and a refused one changes nothing.
    pub open spec fn received(self, before: Transport, frame: Seq<u8>, room: nat) -> bool {
        let s = before.session();
        &&& self.id() == before.id()
        &&& self.counter() == before.counter()
        &&& self.session() == if before.refusal(frame, room) is None {
            NoiseSession { recv_nonce: (s.recv_nonce + 1) as u64, ..s }
        } else {
            s
        }
    }

    pub(crate) fn new(inner: TransportState, sender_id: u32) -> (r: Self)
        requires
            noise::noise_session(inner).send_nonce == 0,
        ensures
            r.session() == noise::noise_session(inner),
            r.id() == sender_id,
            r.counter() == 0,
            r.wf(),
    {
        Self { inner, sender_id, send_counter: 0 }
    }

    /// The identifier of this end.
    pub fn sender_id(&self) -> (r: u32)
        ensures
            r == self.id(),
    {
        self.sender_id
    }

    /// The number of frames begun so far.
    pub fn send_counter(&self) -> (r: u64)
        ensures
            r == self.counter(),
    {
        self.send_counter
    }

    /// Encrypts `plaintext` for `receiver_id` into the front of `out` and returns
    /// the length of the frame. The counter advances with every frame that is
    /// begun, also where the plaintext turns out to be too long. Every end that
    /// is in step decrypts the frame to the same plaintext.
    pub fn encrypt(&mut self, plaintext: &[u8], receiver_id: u32, out: &mut [u8]) -> (r: Result<
        usize,
        Error,
    >)
        requires
            old(self).wf(),
            old(self).counter() < u64::MAX,
            plaintext@.len() + 32 <= usize::MAX,
        ensures
            final(self).wf(),
            final(self).id() == old(self).id(),
            ({
                let s = old(self).session();
                let frame = old(self).next_frame(receiver_id, plaintext@);
                if old(out)@.len() < plaintext@.len() + 32 {
                    &&& r == Err::<usize, Error>(
                        Error::BufferTooSmall {
                            needed: (plaintext@.len() + 32) as usize,
                            actual: old(out)@.len() as usize,
                        },
                    )
                    &&& *final(self) == *old(self)
                    &&& final(out)@ == old(out)@
                } else if plaintext@.len() + noise::TAG_SIZE > noise::MAX_MESSAGE {
                    &&& r == Err::<usize, Error>(Error::Noise(NoiseFailure::Input))
                    &&& final(self).session() == s
                    &&& final(self).counter() == old(self).counter() + 1
                    &&& final(out)@ == header(receiver_id, old(self).counter()) + old(out)@.skip(16)
                } else {
                    &&& r == Ok::<usize, Error>(frame.len() as usize)
                    &&& frame.len() == plaintext@.len() + 32
                    &&& final(out)@ == frame + old(out)@.skip(frame.len() as int)
                    &&& final(self).sent(*old(self))
                    &&& old(self).is_read_as(frame, plaintext@)
                }
            }),
    {
        let needed: usize = TRANSPORT_HEADER_SIZE + plaintext.len() + 16;
        if out.len() < needed {
            return Err(Error::BufferTooSmall { needed, actual: out.len() });
        }
        let ghost start = out@;
        let counter: u64 = self.send_counter;
        self.send_counter = counter + 1;
        let (head, body) = out.split_at_mut(TRANSPORT_HEADER_SIZE);
        head[0] = MESSAGE_TYPE_TRANSPORT;
        head[1] = 0;
        head[2] = 0;
        head[3] = 0;
        let receiver = bytes::u32_to_le(receiver_id);
        bytes::put_bytes(head, 4, &receiver);
        let count = bytes::u64_to_le(counter);
        bytes::put_bytes(head, 8, &count);
        assert(head@ =~= header(receiver_id, counter));
        let sealed = noise::seal(&mut self.inner, plaintext, body);
        match sealed {
            Ok(n) => {
                proof {
                    let s = old(self).session();
                    let text = noise::noise_seal(s.send_key, s.send_nonce, plaintext@);
                    let frame = header(receiver_id, counter) + text;
                    assert(start.skip(16).skip(n as int) =~= start.skip(16 + n as int));
                    assert(out@ =~= frame + start.skip(frame.len() as int));
                    assert(frame.skip(16) =~= text);
                }
                Ok(TRANSPORT_HEADER_SIZE + n)
            },
            Err(e) => {
                assert(out@ =~= header(receiver_id, counter) + start.skip(16));
                Err(Error::Noise(noise::failure_of(&e)))
            },
        }
    }

    /// Decrypts a frame into the front of `out` and returns the length of the
    /// plaintext. A refused frame leaves the session as it was.
    pub fn decrypt(&mut self, ciphertext: &[u8], out: &mut [u8]) -> (r: Result<usize, Error>)
        requires
            old(self).wf(),
        ensures
            final(self).wf(),
            final(self).received(*old(self), ciphertext@, old(out)@.len()),
            final(out)@.len() == old(out)@.len(),
            match r {
                Ok(n) => {
                    let plain = old(self).plaintext(ciphertext@);
                    &&& old(self).refusal(ciphertext@, old(out)@.len()) is None
                    &&& n == plain.len() == ciphertext@.len() - 32
                    &&& final(out)@ == plain + old(out)@.skip(n as int)
                },
                Err(e) => old(self).refusal(ciphertext@, old(out)@.len()) == Some(e),
            },
    {
        if ciphertext.len() < TRANSPORT_HEADER_SIZE + 16 {
            return Err(
                Error::InvalidLength {
                    expected: TRANSPORT_HEADER_SIZE + 16,
                    actual: ciphertext.len(),
                },
            );
        }
        if ciphertext[0] != MESSAGE_TYPE_TRANSPORT {
            return Err(Error::InvalidMessageType(ciphertext[0]));
        }
        let sealed = &ciphertext[TRANSPORT_HEADER_SIZE..ciphertext.len()];
        assert(sealed@ =~= ciphertext@.skip(16));
        match noise::open(&mut self.inner, sealed, out) {
            Ok(n) => Ok(n),
            Err(e) => Err(Error::Noise(noise::failure_of(&e))),
        }
    }
}

/// Two ends that are in step stay so while one sends and the other takes in every
/// frame in order, and every frame is read as what was sent. `sender[k]` and
/// `reader[k]` are the two ends before the frame `frames[k]`.
pub proof fn law_ends_stay_in_step(
    sender: Seq<Transport>,
    reader: Seq<Transport>,
    frames: Seq<Seq<u8>>,
    plain: Seq<Seq<u8>>,
    room: nat,
    n: int,
)
    requires
        0 <= n <= frames.len() == plain.len(),
        sender.len() == reader.len() == frames.len() + 1,
        sender[0].in_step_with(reader[0]),
        forall|k: int|
            0 <= k < frames.len() ==> {
                &&& plain[k].len() <= room
                &&& (#[trigger] sender[k]).is_read_as(frames[k], plain[k])
                &&& sender[k + 1].sent(sender[k])
                &&& reader[k + 1].received(reader[k], frames[k], room)
            },
    ensures
        sender[n].in_step_with(reader[n]),
        n < frames.len() ==> reader[n].refusal(frames[n], room) is None && reader[n].plaintext(
            frames[n],
        ) == plain[n],
    decreases n,
{
    if n > 0 {
        law_ends_stay_in_step(sender, reader, frames, plain, room, n - 1);
        let k = n - 1;
        assert(sender[k].is_read_as(frames[k], plain[k]));
        assert(sender[k + 1].sent(sender[k]));
    }
    if n < frames.len() {
        assert(sender[n].is_read_as(frames[n], plain[n]));
        assert(sender[n].in_step_with(reader[n]));
        assert(reader[n].refusal(frames[n], room) is None);
    }
}

} // verus!
