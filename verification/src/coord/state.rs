//! What the coordination server holds between requests.

use crate::bytes;
use crate::coord::db::{Directory, NodeView, DEFAULT_TOKEN_TTL_SECS};
use crate::coord::ip_alloc::IpAllocator;
use crate::coord::rate_limit::{Bucket, RateLimiter};
use crate::net::IpAddress;
use crate::text;
use crate::time::Instant;
use vstd::prelude::*;

verus! {

/// Everything that the server holds.
pub struct AppState {
    /// The nodes and their tokens.
    pub db: Directory,
    /// The addresses that are taken.
    pub ip_alloc: IpAllocator,
    /// How long a token lives.
    pub token_ttl_secs: i64,
    /// The request times of the callers.
    pub rate_limiter: RateLimiter,
}

/// The addresses that stored nodes have, as numbers.
pub open spec fn addresses(nodes: Seq<NodeView>) -> Set<u32>
    decreases nodes.len(),
{
    if nodes.len() == 0 {
        Set::empty()
    } else {
        addresses(nodes.drop_last()).insert(
            bytes::from_be32(text::lenient_ip(nodes.last().ip)),
        )
    }
}

/// The lifetime of tokens that an environment variable asks for.
pub open spec fn ttl_of(setting: Option<Seq<char>>) -> i64 {
    match setting {
        Some(s) => match text::int_of(s) {
            Some(ttl) => ttl,
            None => DEFAULT_TOKEN_TTL_SECS,
        },
        None => DEFAULT_TOKEN_TTL_SECS,
    }
}

/// The lifetime of tokens that an environment variable asks for, or the default
/// where it is not set or is no number.
pub fn token_ttl_from_env(setting: Option<&str>) -> (r: i64)
    ensures
        r == ttl_of(crate::coord::auth::text_of(setting)),
{
    match setting {
        Some(s) => match text::parse_i64(s) {
            Some(ttl) => ttl,
            None => DEFAULT_TOKEN_TTL_SECS,
        },
        None => DEFAULT_TOKEN_TTL_SECS,
    }
}

impl IpAllocator {
    /// The allocator to which the addresses of all nodes are taken.
    pub fn new(db: &Directory) -> (r: Self)
        requires
            db.wf(),
        ensures
            r.taken() == addresses(db.nodes()),
    {
        let peers = db.list_peers(None);
        let mut alloc = IpAllocator::empty();
        let ghost nodes = db.nodes();
        let mut j: usize = 0;
        assert(nodes.take(0).len() == 0);
        while j < peers.len()
            invariant
                j <= peers@.len() == nodes.len(),
                nodes == crate::coord::db::node_views(peers@),
                alloc.taken() == addresses(nodes.take(j as int)),
            decreases peers@.len() - j,
        {
            assert(nodes.take(j + 1).drop_last() =~= nodes.take(j as int));
            assert(nodes[j as int] == peers@[j as int]@);
            alloc.occupy(peers[j].ip.as_str());
            j = j + 1;
        }
        assert(nodes.take(j as int) =~= nodes);
        alloc
    }
}

impl AppState {
    /// The directory and the limiter are in order.
    pub open spec fn wf(self) -> bool {
        self.db.wf() && self.rate_limiter.wf()
    }

    /// Every node has a proper address, and it is taken.
    pub open spec fn addresses_tracked(self) -> bool {
        forall|j: int|
            0 <= j < self.db.nodes().len() ==> {
                let ip = (#[trigger] self.db.nodes()[j]).ip;
                text::is_dotted(ip) && self.ip_alloc.taken().contains(
                    bytes::from_be32(text::lenient_ip(ip)),
                )
            }
    }

    /// Whether no request counts against any caller.
    pub open spec fn has_seen_no_request(self) -> bool {
        forall|peer: IpAddress, bucket: Bucket| #[trigger]
            self.rate_limiter.log(peer, bucket) == Seq::<Instant>::empty()
    }

    /// Whether the server goes on with a stored directory: its nodes have their addresses,
    /// and nobody has asked for anything yet.
    pub open spec fn resumes(self, db: Directory, ttl_setting: Option<Seq<char>>) -> bool {
        &&& self.db == db
        &&& self.ip_alloc.taken() == addresses(db.nodes())
        &&& self.has_seen_no_request()
        &&& self.token_ttl_secs == ttl_of(ttl_setting)
    }

    /// The server that goes on with a stored directory.
    pub fn open(db: Directory, ttl_setting: Option<&str>) -> (r: Self)
        requires
            db.wf(),
        ensures
            r.wf(),
            r.resumes(db, crate::coord::auth::text_of(ttl_setting)),
    {
        let ip_alloc = IpAllocator::new(&db);
        AppState {
            db,
            ip_alloc,
            token_ttl_secs: token_ttl_from_env(ttl_setting),
            rate_limiter: RateLimiter::new(),
        }
    }

    /// A server with an empty directory.
    pub fn in_memory(ttl_setting: Option<&str>) -> (r: Self)
        ensures
            r.wf(),
            r.addresses_tracked(),
            r.db.nodes().len() == 0,
            r.db.tokens().len() == 0,
            r.ip_alloc.taken() == Set::<u32>::empty(),
            r.has_seen_no_request(),
            r.token_ttl_secs == ttl_of(crate::coord::auth::text_of(ttl_setting)),
    {
        Self::open(Directory::new(), ttl_setting)
    }

    /// A server with an empty directory whose tokens live for `ttl_secs`.
    pub fn in_memory_with_ttl(ttl_secs: i64) -> (r: Self)
        ensures
            r.wf(),
            r.addresses_tracked(),
            r.db.nodes().len() == 0,
            r.db.tokens().len() == 0,
            r.ip_alloc.taken() == Set::<u32>::empty(),
            r.has_seen_no_request(),
            r.token_ttl_secs == ttl_secs,
    {
        let db = Directory::new();
        let ip_alloc = IpAllocator::new(&db);
        AppState { db, ip_alloc, token_ttl_secs: ttl_secs, rate_limiter: RateLimiter::new() }
    }
}

/// A server that has seen no request turns nobody away for asking too often.
pub proof fn law_fresh_server_admits(s: AppState, peer: IpAddress, bucket: Bucket, at: Instant)
    requires
        s.has_seen_no_request(),
    ensures
        s.admits(peer, bucket, at),
{
    assert(s.rate_limiter.log(peer, bucket).len() == 0);
}

/// The allocator of a stored directory has taken the address of every node, and
/// nothing else.
pub proof fn law_stored_addresses_are_taken(nodes: Seq<NodeView>, n: u32)
    ensures
        addresses(nodes).contains(n) <==> exists|j: int|
            0 <= j < nodes.len() && n == bytes::from_be32(
                text::lenient_ip((#[trigger] nodes[j]).ip),
            ),
    decreases nodes.len(),
{
    if nodes.len() > 0 {
        let front = nodes.drop_last();
        law_stored_addresses_are_taken(front, n);
        if addresses(front).contains(n) {
            let j = choose|j: int|
                0 <= j < front.len() && n == bytes::from_be32(
                    text::lenient_ip((#[trigger] front[j]).ip),
                );
            assert(nodes[j] == front[j]);
        }
        if addresses(nodes).contains(n) && !addresses(front).contains(n) {
            assert(n == bytes::from_be32(text::lenient_ip(nodes[nodes.len() - 1].ip)));
        }
        if exists|j: int|
            0 <= j < nodes.len() && n == bytes::from_be32(
                text::lenient_ip((#[trigger] nodes[j]).ip),
            ) {
            let j = choose|j: int|
                0 <= j < nodes.len() && n == bytes::from_be32(
                    text::lenient_ip((#[trigger] nodes[j]).ip),
                );
            if j < front.len() {
                assert(front[j] == nodes[j]);
            }
        }
    }
}

} // verus!
