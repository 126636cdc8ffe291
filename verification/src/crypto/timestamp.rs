//! TAI64N timestamps: 8 bytes of TAI seconds and 4 bytes of nanoseconds, both
//! big-endian. They guard handshake initiations against replay.

use crate::bytes;
use std::cmp::Ordering;
use std::time::SystemTime;
use vstd::prelude::*;

verus! {

/// The TAI-UTC offset that is added to Unix seconds.
pub const TAI_OFFSET_SECONDS: u64 = 37;

/// A TAI64N timestamp.
#[derive(Debug, Clone, Copy, PartialEq, Eq, Ord, Hash, Structural)]
pub struct Tai64N {
    seconds: u64,
    nanos: u32,
}

/// `std::time::SystemTime`: nothing is known of what is inside.
#[verifier::external_type_specification]
#[verifier::external_body]
pub struct ExSystemTime(std::time::SystemTime);

/// A reading of the wall clock in seconds and nanoseconds of Unix time, or `None` for
/// one before the epoch.
pub uninterp spec fn unix_time(reading: SystemTime) -> Option<(u64, u32)>;

/// Calls `SystemTime::now`. Nothing is claimed of the reading.
#[verifier::external_body]
fn wall_clock() -> (r: SystemTime)
{
    SystemTime::now()
}

/// Calls `SystemTime::duration_since(UNIX_EPOCH)`: whole seconds and the nanoseconds
/// within the second, or `None` for a reading before the epoch. This depends on the
/// reading alone. A duration's nanosecond part is below one second.
#[verifier::external_body]
fn since_epoch(reading: SystemTime) -> (r: Option<(u64, u32)>)
    ensures
        r == unix_time(reading),
        r matches Some(t) ==> t.1 < 1_000_000_000,
{
    match reading.duration_since(std::time::UNIX_EPOCH) {
        Ok(d) => Some((d.as_secs(), d.subsec_nanos())),
        Err(_) => None,
    }
}

/// The wall clock in seconds and nanoseconds of Unix time, or `None` while it stands
/// before the epoch.
pub(crate) fn unix_clock() -> (r: Option<(u64, u32)>)
    ensures
        exists|reading: SystemTime| r == #[trigger] unix_time(reading),
        r matches Some(t) ==> t.1 < 1_000_000_000,
{
    since_epoch(wall_clock())
}

impl Tai64N {
    /// The length of the wire form.
    pub const SIZE: usize = 12;

    /// The TAI seconds.
    pub closed spec fn secs(self) -> u64 {
        self.seconds
    }

    /// The nanoseconds within the second.
    pub closed spec fn subsec(self) -> u32 {
        self.nanos
    }

    /// Whether this is the timestamp of a moment given in Unix time.
    pub open spec fn stamps(self, secs: u64, nanos: u32) -> bool {
        &&& self.secs() == secs + TAI_OFFSET_SECONDS
        &&& self.subsec() == nanos
    }

    /// The wire form.
    pub open spec fn wire(self) -> Seq<u8> {
        bytes::be64(self.secs()) + bytes::be32(self.subsec())
    }

    /// The current time, or `None` while the clock stands before the Unix epoch
    /// or past the last representable second.
    pub fn now() -> (r: Option<Self>)
        ensures
            r matches Some(t) ==> t.secs() >= TAI_OFFSET_SECONDS && t.subsec() < 1_000_000_000,
    {
        Self::from_clock(unix_clock())
    }

    /// The timestamp of a reading of the wall clock, in seconds and nanoseconds of
    /// Unix time; `None` where there is none or it is past the last second that
    /// can be represented.
    pub fn from_clock(reading: Option<(u64, u32)>) -> (r: Option<Self>)
        ensures
            match reading {
                Some((secs, nanos)) => if secs + TAI_OFFSET_SECONDS <= u64::MAX {
                    r matches Some(t) && t.stamps(secs, nanos)
                } else {
                    r is None
                },
                None => r is None,
            },
    {
        match reading {
            Some((secs, nanos)) => {
                if secs <= u64::MAX - TAI_OFFSET_SECONDS {
                    Some(Self::from_unix(secs, nanos))
                } else {
                    None
                }
            },
            None => None,
        }
    }

    /// The timestamp of a moment given in Unix time.
    pub fn from_unix(secs: u64, nanos: u32) -> (r: Self)
        requires
            secs + TAI_OFFSET_SECONDS <= u64::MAX,
        ensures
            r.stamps(secs, nanos),
    {
        Self { seconds: secs + TAI_OFFSET_SECONDS, nanos }
    }

    /// The wire form of the timestamp.
    pub fn to_bytes(self) -> (r: [u8; 12])
        ensures
            r@ == self.wire(),
    {
        let s = bytes::u64_to_be(self.seconds);
        let n = self.nanos;
        let r = [
            s[0],
            s[1],
            s[2],
            s[3],
            s[4],
            s[5],
            s[6],
            s[7],
            (n >> 24) as u8,
            (n >> 16) as u8,
            (n >> 8) as u8,
            n as u8,
        ];
        assert(r@ =~= self.wire());
        r
    }

    /// Reads a timestamp from its wire form.
    pub fn from_bytes(bytes: [u8; 12]) -> (r: Self)
        ensures
            r.secs() == bytes::from_be64(bytes@),
            r.subsec() == bytes::from_be32(bytes@.subrange(8, 12)),
    {
        let seconds: u64 = ((bytes[0] as u64) << 56) | ((bytes[1] as u64) << 48) | ((
        bytes[2] as u64) << 40) | ((bytes[3] as u64) << 32) | ((bytes[4] as u64) << 24) | ((
        bytes[5] as u64) << 16) | ((bytes[6] as u64) << 8) | (bytes[7] as u64);
        let nanos: u32 = ((bytes[8] as u32) << 24) | ((bytes[9] as u32) << 16) | ((
        bytes[10] as u32) << 8) | (bytes[11] as u32);
        Self { seconds, nanos }
    }

    /// The TAI seconds of the timestamp.
    pub fn seconds(self) -> (r: u64)
        ensures
            r == self.secs(),
    {
        self.seconds
    }
}

/// Reading back what was written gives the timestamp that was written.
pub proof fn law_wire_round_trip(t: Tai64N)
    ensures
        bytes::from_be64(t.wire()) == t.secs(),
        bytes::from_be32(t.wire().subrange(8, 12)) == t.subsec(),
{
    bytes::lemma_be64_round_trip(t.secs());
    bytes::lemma_be32_round_trip(t.subsec());
    assert(t.wire().subrange(0, 8) =~= bytes::be64(t.secs()));
    assert(t.wire().subrange(8, 12) =~= bytes::be32(t.subsec()));
    assert(forall|i: int| 0 <= i < 8 ==> t.wire()[i] == bytes::be64(t.secs())[i]);
}

impl Tai64N {
    /// Whether this moment lies before another.
    pub open spec fn before(self, other: Tai64N) -> bool {
        self.secs() < other.secs() || (self.secs() == other.secs() && self.subsec()
            < other.subsec())
    }
}

impl PartialOrd for Tai64N {
    fn partial_cmp(&self, other: &Self) -> (r: Option<Ordering>) {
        if self.seconds < other.seconds {
            Some(Ordering::Less)
        } else if self.seconds > other.seconds {
            Some(Ordering::Greater)
        } else if self.nanos < other.nanos {
            Some(Ordering::Less)
        } else if self.nanos > other.nanos {
            Some(Ordering::Greater)
        } else {
            Some(Ordering::Equal)
        }
    }
}

impl vstd::std_specs::cmp::PartialOrdSpecImpl for Tai64N {
    open spec fn obeys_partial_cmp_spec() -> bool {
        true
    }

    open spec fn partial_cmp_spec(&self, other: &Self) -> Option<Ordering> {
        if self.before(*other) {
            Some(Ordering::Less)
        } else if other.before(*self) {
            Some(Ordering::Greater)
        } else {
            Some(Ordering::Equal)
        }
    }
}

/// The wire form keeps the order of time: of two timestamps the earlier one has the
/// wire form that comes first in the order of bytes, and only it has.
pub proof fn law_wire_keeps_order(a: Tai64N, b: Tai64N)
    ensures
        a.before(b) <==> bytes::comes_after(b.wire(), a.wire()),
{
    if a.before(b) {
        lemma_wire_order(a, b);
    } else if b.before(a) {
        lemma_wire_order(b, a);
        bytes::lemma_order_is_one_way(a.wire(), b.wire());
    } else {
        bytes::lemma_order_is_one_way(a.wire(), a.wire());
    }
}

proof fn lemma_wire_order(a: Tai64N, b: Tai64N)
    requires
        a.before(b),
    ensures
        bytes::comes_after(b.wire(), a.wire()),
{
    let (s, t) = (bytes::be64(a.secs()), bytes::be64(b.secs()));
    let (m, n) = (bytes::be32(a.subsec()), bytes::be32(b.subsec()));
    if a.secs() < b.secs() {
        bytes::lemma_be64_order(a.secs(), b.secs());
        bytes::lemma_order_by_front(t, s, n, m);
    } else {
        bytes::lemma_be32_order(a.subsec(), b.subsec());
        bytes::lemma_order_by_back(s, n, m);
    }
}

} // verus!
