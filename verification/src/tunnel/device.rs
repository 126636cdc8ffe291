//! Tunnel devices, and a pair of devices that are connected to each other.

use crate::bytes;
use crate::tunnel::error::Error;
use std::sync::mpsc::{Receiver, Sender};
use vstd::prelude::*;

verus! {

/// A device from which packets can be read and to which they can be written,
/// without waiting.
pub trait Device: Send {
    /// The device's name.
    fn name(&self) -> &str;

    /// Reads a packet into the front of `buf`, if there is one.
    fn try_read(&self, buf: &mut [u8]) -> Result<Option<usize>, Error>;

    /// Writes a packet.
    fn write(&self, buf: &[u8]) -> Result<usize, Error>;
}

/// `std::sync::mpsc::Sender`: nothing is known of what is inside.
#[verifier::external_type_specification]
#[verifier::external_body]
#[verifier::reject_recursive_types(T)]
pub struct ExSender<T>(std::sync::mpsc::Sender<T>);

/// `std::sync::mpsc::Receiver`: nothing is known of what is inside.
#[verifier::external_type_specification]
#[verifier::external_body]
#[verifier::reject_recursive_types(T)]
pub struct ExReceiver<T>(std::sync::mpsc::Receiver<T>);

/// Whether what is put into a sender comes out of a receiver.
pub uninterp spec fn connected(s: Sender<Vec<u8>>, r: Receiver<Vec<u8>>) -> bool;

/// Calls `std::sync::mpsc::channel`: the two halves are connected.
#[verifier::external_body]
fn channel() -> (r: (Sender<Vec<u8>>, Receiver<Vec<u8>>))
    ensures
        connected(r.0, r.1),
{
    std::sync::mpsc::channel()
}

/// Whether a packet was put into a sender, at any time.
pub uninterp spec fn was_put(s: Sender<Vec<u8>>, pkt: Seq<u8>) -> bool;

/// Calls `Sender::send` and says whether the packet was taken. Nothing is claimed
/// of when it is: that rests on whether the other half still exists.
#[verifier::external_body]
fn put(s: &Sender<Vec<u8>>, pkt: Vec<u8>) -> (r: bool)
    ensures
        r ==> was_put(*s, pkt@),
{
    s.send(pkt).is_ok()
}

/// Calls `Receiver::try_recv`: what comes out was put into a sender of the same
/// channel. Nothing is claimed of when something does: that rests on what the
/// holder of the other half has done.
#[verifier::external_body]
fn take(r: &Receiver<Vec<u8>>) -> (pkt: Option<Vec<u8>>)
    ensures
        pkt matches Some(p) ==> exists|s: Sender<Vec<u8>>|
            connected(s, *r) && #[trigger] was_put(s, p@),
{
    r.try_recv().ok()
}

/// A device that is connected to another one of its kind.
pub struct LoopbackDevice {
    name: String,
    to_kernel: Sender<Vec<u8>>,
    from_kernel: Receiver<Vec<u8>>,
}

/// Copies a packet into the front of a buffer, where it fits.
pub fn fill(pkt: &[u8], buf: &mut [u8]) -> (r: Result<usize, Error>)
    ensures
        final(buf)@.len() == old(buf)@.len(),
        if pkt@.len() > old(buf)@.len() {
            &&& r == Err::<usize, Error>(
                Error::BufferTooSmall {
                    needed: pkt@.len() as usize,
                    actual: old(buf)@.len() as usize,
                },
            )
            &&& final(buf)@ == old(buf)@
        } else {
            &&& r == Ok::<usize, Error>(pkt@.len() as usize)
            &&& final(buf)@ == pkt@ + old(buf)@.skip(pkt@.len() as int)
        },
{
    if pkt.len() > buf.len() {
        return Err(Error::BufferTooSmall { needed: pkt.len(), actual: buf.len() });
    }
    let ghost start = buf@;
    bytes::put_bytes(buf, 0, pkt);
    assert(buf@ =~= pkt@ + start.skip(pkt@.len() as int));
    Ok(pkt.len())
}

/// What reading gives where `pkt` is the next packet, or where there is none: the
/// packet's length, with the packet in the front of the buffer, where it fits.
pub fn receive(pkt: Option<Vec<u8>>, buf: &mut [u8]) -> (r: Result<Option<usize>, Error>)
    ensures
        final(buf)@.len() == old(buf)@.len(),
        match pkt {
            None => {
                &&& r == Ok::<Option<usize>, Error>(None)
                &&& final(buf)@ == old(buf)@
            },
            Some(p) => if p@.len() > old(buf)@.len() {
                &&& r == Err::<Option<usize>, Error>(
                    Error::BufferTooSmall {
                        needed: p@.len() as usize,
                        actual: old(buf)@.len() as usize,
                    },
                )
                &&& final(buf)@ == old(buf)@
            } else {
                &&& r == Ok::<Option<usize>, Error>(Some(p@.len() as usize))
                &&& final(buf)@ == p@ + old(buf)@.skip(p@.len() as int)
            },
        },
{
    match pkt {
        Some(p) => match fill(p.as_slice(), buf) {
            Ok(n) => Ok(Some(n)),
            Err(e) => Err(e),
        },
        None => Ok(None),
    }
}

impl LoopbackDevice {
    /// The device's name.
    pub closed spec fn label(self) -> Seq<char> {
        self.name@
    }

    /// Whether what is written to this device can be read from the other.
    pub closed spec fn leads_to(self, other: LoopbackDevice) -> bool {
        connected(self.to_kernel, other.from_kernel)
    }

    /// Whether a packet was written to this device, at any time.
    pub closed spec fn wrote(self, pkt: Seq<u8>) -> bool {
        was_put(self.to_kernel, pkt)
    }

    /// Whether a packet was written, at any time, where this device reads.
    pub closed spec fn can_hear(self, pkt: Seq<u8>) -> bool {
        exists|s: Sender<Vec<u8>>| connected(s, self.from_kernel) && #[trigger] was_put(s, pkt)
    }

    /// What is written to a device can be heard by the one that it leads to.
    pub proof fn law_written_is_heard(self, other: LoopbackDevice, pkt: Seq<u8>)
        requires
            self.leads_to(other),
            self.wrote(pkt),
        ensures
            other.can_hear(pkt),
    {
    }

    /// Two devices that are connected to each other.
    pub fn new(name: &str) -> (r: (LoopbackDevice, LoopbackDevice))
        ensures
            r.0.label() == name@,
            r.1.label() == name@ + "-user"@,
            r.0.leads_to(r.1),
            r.1.leads_to(r.0),
    {
        let (a_to_b, b_from_a) = channel();
        let (b_to_a, a_from_b) = channel();
        let kernel = Self { name: name.to_string(), to_kernel: a_to_b, from_kernel: a_from_b };
        let user = Self {
            name: name.to_string().concat("-user"),
            to_kernel: b_to_a,
            from_kernel: b_from_a,
        };
        (kernel, user)
    }

    /// Takes the next packet that was written for this device, if there is one.
    /// Whether there is one rests on what the other device has done.
    pub fn try_recv_raw(&self) -> (r: Option<Vec<u8>>)
        ensures
            r matches Some(pkt) ==> self.can_hear(pkt@),
    {
        take(&self.from_kernel)
    }

    /// Hands a packet to the other device; it fails where that device is gone.
    pub fn send_raw(&self, pkt: Vec<u8>) -> (r: Result<(), Error>)
        ensures
            match r {
                Ok(_) => self.wrote(pkt@),
                Err(e) => e == Error::NotReady,
            },
    {
        if put(&self.to_kernel, pkt) {
            Ok(())
        } else {
            Err(Error::NotReady)
        }
    }
}

impl Device for LoopbackDevice {
    fn name(&self) -> (r: &str)
        ensures
            r@ == self.label(),
    {
        self.name.as_str()
    }

    /// Reads the next packet that was written for this device as `receive` does.
    /// Whether there is one rests on what the other device has done.
    fn try_read(&self, buf: &mut [u8]) -> (r: Result<Option<usize>, Error>)
        ensures
            final(buf)@.len() == old(buf)@.len(),
            match r {
                Ok(Some(n)) => {
                    &&& n <= old(buf)@.len()
                    &&& self.can_hear(final(buf)@.take(n as int))
                    &&& final(buf)@.skip(n as int) == old(buf)@.skip(n as int)
                },
                Ok(None) => final(buf)@ == old(buf)@,
                Err(e) => {
                    &&& e matches Error::BufferTooSmall { needed, actual }
                    &&& needed > actual == old(buf)@.len()
                    &&& exists|pkt: Seq<u8>| pkt.len() == needed && #[trigger] self.can_hear(pkt)
                    &&& final(buf)@ == old(buf)@
                },
            },
    {
        let ghost start = buf@;
        let pkt = take(&self.from_kernel);
        let ghost taken = pkt;
        let r = receive(pkt, buf);
        proof {
            if let Some(p) = taken {
                assert(self.can_hear(p@));
                assert(p.len() == p@.len() && buf.len() == start.len());
                if p@.len() <= start.len() {
                    assert(buf@.take(p@.len() as int) =~= p@);
                    assert(buf@.skip(p@.len() as int) =~= start.skip(p@.len() as int));
                }
            }
        }
        r
    }

    fn write(&self, buf: &[u8]) -> (r: Result<usize, Error>)
        ensures
            match r {
                Ok(n) => n == buf@.len() && self.wrote(buf@),
                Err(e) => e == Error::NotReady,
            },
    {
        if put(&self.to_kernel, vstd::slice::slice_to_vec(buf)) {
            Ok(buf.len())
        } else {
            Err(Error::NotReady)
        }
    }
}

} // verus!
