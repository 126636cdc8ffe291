//! The pool of mesh addresses.

use crate::bytes;
use crate::coord::error::{Error, Refusal};
use crate::text;
use std::collections::HashSet;
use vstd::prelude::*;

verus! {

broadcast use vstd::std_specs::hash::group_hash_axioms;

/// The network of the pool.
pub const IP_POOL_NETWORK: [u8; 4] = [100, 100, 0, 0];

/// The length of the network's prefix.
pub const IP_POOL_PREFIX: u8 = 16;

/// How many hosts the pool has.
pub const IP_POOL_HOST_COUNT: u32 = 65534;

/// The first host of the pool, 100.100.0.1.
pub const IP_POOL_FIRST_HOST: u32 = 0x6464_0001;

/// The addresses that are taken.
pub struct IpAllocator {
    used: HashSet<u32>,
}

/// Whether an address is a host of the pool.
pub open spec fn in_pool(n: u32) -> bool {
    IP_POOL_FIRST_HOST <= n < IP_POOL_FIRST_HOST + IP_POOL_HOST_COUNT
}

impl IpAllocator {
    /// The addresses that are taken, as numbers.
    pub closed spec fn taken(self) -> Set<u32> {
        self.used@
    }

    /// Whether `n` is the lowest host of the pool that is free.
    pub open spec fn lowest_free(self, n: u32) -> bool {
        &&& in_pool(n)
        &&& !self.taken().contains(n)
        &&& forall|m: u32| in_pool(m) && m < n ==> #[trigger] self.taken().contains(m)
    }

    /// An allocator to which nothing is known to be taken.
    pub fn empty() -> (r: Self)
        ensures
            r.taken() == Set::<u32>::empty(),
    {
        IpAllocator { used: HashSet::new() }
    }

    /// Marks the address that a stored text spells as taken.
    pub fn occupy(&mut self, ip: &str)
        ensures
            final(self).taken() == old(self).taken().insert(
                bytes::from_be32(text::lenient_ip(ip@)),
            ),
    {
        let n = ipv4_str_to_u32(ip);
        self.used.insert(n);
    }

    /// Takes the lowest host of the pool that is free.
    pub fn allocate(&mut self) -> (r: Result<[u8; 4], Error>)
        ensures
            match r {
                Ok(ip) => {
                    let n = bytes::from_be32(ip@);
                    &&& old(self).lowest_free(n)
                    &&& final(self).taken() == old(self).taken().insert(n)
                },
                Err(e) => {
                    &&& e@ == Refusal::IpPoolExhausted
                    &&& forall|n: u32| in_pool(n) ==> #[trigger] old(self).taken().contains(n)
                    &&& final(self).taken() == old(self).taken()
                },
            },
    {
        let mut i: u32 = 0;
        while i < IP_POOL_HOST_COUNT
            invariant
                i <= IP_POOL_HOST_COUNT,
                self.taken() == old(self).taken(),
                forall|m: u32|
                    IP_POOL_FIRST_HOST <= m < IP_POOL_FIRST_HOST + i
                        ==> #[trigger] self.taken().contains(m),
            decreases IP_POOL_HOST_COUNT - i,
        {
            let candidate: u32 = IP_POOL_FIRST_HOST + i;
            if !self.used.contains(&candidate) {
                self.used.insert(candidate);
                let ip = u32_to_ipv4(candidate);
                proof {
                    bytes::lemma_be32_round_trip(candidate);
                }
                return Ok(ip);
            }
            i = i + 1;
        }
        Err(Error::IpPoolExhausted)
    }

    /// Gives an address back to the pool.
    pub fn release(&mut self, ip: &[u8; 4])
        ensures
            final(self).taken() == old(self).taken().remove(bytes::from_be32(ip@)),
    {
        let n = ipv4_to_u32(ip);
        self.used.remove(&n);
    }
}

fn ipv4_to_u32(ip: &[u8; 4]) -> (r: u32)
    ensures
        r == bytes::from_be32(ip@),
{
    ((ip[0] as u32) << 24) | ((ip[1] as u32) << 16) | ((ip[2] as u32) << 8) | (ip[3] as u32)
}

fn u32_to_ipv4(n: u32) -> (r: [u8; 4])
    ensures
        r@ == bytes::be32(n),
{
    let r = [(n >> 24) as u8, (n >> 16) as u8, (n >> 8) as u8, n as u8];
    assert(r@ =~= bytes::be32(n));
    r
}

fn ipv4_str_to_u32(s: &str) -> (r: u32)
    ensures
        r == bytes::from_be32(text::lenient_ip(s@)),
{
    let ip = text::parse_lenient_ip(s);
    ipv4_to_u32(&ip)
}

/// An address that was given back is handed out again before any higher one.
pub proof fn law_released_address_returns(a: IpAllocator, b: IpAllocator, n: u32, m: u32)
    requires
        in_pool(n),
        b.taken() == a.taken().remove(n),
        b.lowest_free(m),
    ensures
        m <= n,
{
    assert(!b.taken().contains(n));
}

/// Two addresses that are handed out one after the other differ.
pub proof fn law_addresses_are_distinct(a: IpAllocator, b: IpAllocator, n: u32, m: u32)
    requires
        a.lowest_free(n),
        b.taken() == a.taken().insert(n),
        b.lowest_free(m),
    ensures
        n < m,
{
    assert(b.taken().contains(n));
    if m < n {
        assert(a.taken().contains(m));
        assert(b.taken().contains(m));
    }
}

} // verus!
