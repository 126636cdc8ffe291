//! The directory of nodes and their tokens.

use crate::coord::error::Error;
use vstd::prelude::*;

verus! {

/// How long a token lives unless something else is configured: 30 days.
pub const DEFAULT_TOKEN_TTL_SECS: i64 = 2_592_000;

/// The longest key that can be stored.
pub const MAX_KEY_BYTES: usize = 1_000_000_000;

/// A registered node.
#[derive(Debug)]
pub struct NodeRecord {
    /// The node's identifier.
    pub node_id: String,
    /// The Ed25519 key under which the node signs.
    pub identity_pubkey: Vec<u8>,
    /// The X25519 key of the node's tunnels.
    pub wg_pubkey: Vec<u8>,
    /// The node's mesh address.
    pub ip: String,
    /// Where the node was last reachable.
    pub last_endpoint: Option<String>,
    /// The relay behind which the node sits.
    pub via_relay: Option<String>,
    /// When the node last sent a heartbeat.
    pub last_seen: Option<i64>,
    /// When the node registered.
    pub created_at: i64,
}

/// A token of a node.
#[derive(Debug)]
pub struct TokenRecord {
    /// The token.
    pub token: String,
    /// The node that it belongs to.
    pub node_id: String,
    /// When it was issued.
    pub created_at: i64,
    /// When it stops counting.
    pub expires_at: i64,
    /// Whether it was taken back.
    pub revoked: bool,
}

/// A registered node, in mathematical terms.
#[verifier::ext_equal]
pub struct NodeView {
    pub node_id: Seq<char>,
    pub identity: Seq<u8>,
    pub wg: Seq<u8>,
    pub ip: Seq<char>,
    pub last_endpoint: Option<Seq<char>>,
    pub via_relay: Option<Seq<char>>,
    pub last_seen: Option<i64>,
    pub created_at: i64,
}

/// A token of a node, in mathematical terms.
#[verifier::ext_equal]
pub struct TokenView {
    pub token: Seq<char>,
    pub node_id: Seq<char>,
    pub created_at: i64,
    pub expires_at: i64,
    pub revoked: bool,
}

/// The characters of an optional string.
pub open spec fn chars_of(s: Option<String>) -> Option<Seq<char>> {
    match s {
        Some(t) => Some(t@),
        None => None,
    }
}

impl View for NodeRecord {
    type V = NodeView;

    open spec fn view(&self) -> NodeView {
        NodeView {
            node_id: self.node_id@,
            identity: self.identity_pubkey@,
            wg: self.wg_pubkey@,
            ip: self.ip@,
            last_endpoint: chars_of(self.last_endpoint),
            via_relay: chars_of(self.via_relay),
            last_seen: self.last_seen,
            created_at: self.created_at,
        }
    }
}

impl View for TokenRecord {
    type V = TokenView;

    open spec fn view(&self) -> TokenView {
        TokenView {
            token: self.token@,
            node_id: self.node_id@,
            created_at: self.created_at,
            expires_at: self.expires_at,
            revoked: self.revoked,
        }
    }
}

/// A token that was issued before tokens stopped counting, with the default lifetime;
/// any other as it is.
pub open spec fn backfilled(t: TokenView) -> TokenView {
    TokenView {
        expires_at: if t.expires_at == 0 {
            (t.created_at + DEFAULT_TOKEN_TTL_SECS) as i64
        } else {
            t.expires_at
        },
        ..t
    }
}

impl TokenRecord {
    /// Gives a token that was issued before tokens stopped counting the default
    /// lifetime, so that it goes on counting.
    pub fn backfill(&mut self)
        requires
            old(self).created_at + DEFAULT_TOKEN_TTL_SECS <= i64::MAX,
        ensures
            final(self)@ == backfilled(old(self)@),
    {
        if self.expires_at == 0 {
            self.expires_at = self.created_at + DEFAULT_TOKEN_TTL_SECS;
        }
    }
}

/// Copies an optional string.
pub fn copy_text(s: &Option<String>) -> (r: Option<String>)
    ensures
        chars_of(r) == chars_of(*s),
{
    match s {
        Some(t) => Some(t.clone()),
        None => None,
    }
}

impl Clone for NodeRecord {
    fn clone(&self) -> (r: Self)
        ensures
            r@ == self@,
    {
        NodeRecord {
            node_id: self.node_id.clone(),
            identity_pubkey: self.identity_pubkey.clone(),
            wg_pubkey: self.wg_pubkey.clone(),
            ip: self.ip.clone(),
            last_endpoint: copy_text(&self.last_endpoint),
            via_relay: copy_text(&self.via_relay),
            last_seen: self.last_seen,
            created_at: self.created_at,
        }
    }
}

impl Clone for TokenRecord {
    fn clone(&self) -> (r: Self)
        ensures
            r@ == self@,
    {
        TokenRecord {
            token: self.token.clone(),
            node_id: self.node_id.clone(),
            created_at: self.created_at,
            expires_at: self.expires_at,
            revoked: self.revoked,
        }
    }
}

/// Whether two nodes cannot stand in the directory together.
pub open spec fn clash(a: NodeView, b: NodeView) -> bool {
    a.node_id == b.node_id || a.identity == b.identity || a.wg == b.wg || a.ip == b.ip
}

/// Which nodes are not the one with the given identifier.
pub open spec fn other_node(id: Seq<char>) -> spec_fn(NodeView) -> bool {
    |n: NodeView| n.node_id != id
}

/// Which tokens are not those of the node with the given identifier.
pub open spec fn other_token(id: Seq<char>) -> spec_fn(TokenView) -> bool {
    |t: TokenView| t.node_id != id
}

/// The nodes other than the one with the given identifier, in their order.
pub open spec fn nodes_without(nodes: Seq<NodeView>, id: Seq<char>) -> Seq<NodeView> {
    nodes.filter(other_node(id))
}

/// The tokens of all nodes other than the one with the given identifier, in their
/// order.
pub open spec fn tokens_without(tokens: Seq<TokenView>, id: Seq<char>) -> Seq<TokenView> {
    tokens.filter(other_token(id))
}

/// The tokens once those of a node are taken back.
pub open spec fn tokens_revoked(tokens: Seq<TokenView>, id: Seq<char>) -> Seq<TokenView> {
    tokens.map_values(
        |t: TokenView|
            if t.node_id == id {
                TokenView { revoked: true, ..t }
            } else {
                t
            },
    )
}

/// How many tokens of a node are not taken back yet.
pub open spec fn count_unrevoked(tokens: Seq<TokenView>, id: Seq<char>) -> nat
    decreases tokens.len(),
{
    if tokens.len() == 0 {
        0
    } else {
        count_unrevoked(tokens.drop_last(), id) + if tokens.last().node_id == id
            && !tokens.last().revoked {
            1nat
        } else {
            0
        }
    }
}

/// The nodes once one of them was seen at an endpoint. A relay that is not given
/// stays as it was.
pub open spec fn nodes_seen(
    nodes: Seq<NodeView>,
    id: Seq<char>,
    endpoint: Seq<char>,
    via_relay: Option<Seq<char>>,
    last_seen: i64,
) -> Seq<NodeView> {
    nodes.map_values(
        |n: NodeView|
            if n.node_id == id {
                NodeView {
                    last_endpoint: Some(endpoint),
                    via_relay: if via_relay is Some {
                        via_relay
                    } else {
                        n.via_relay
                    },
                    last_seen: Some(last_seen),
                    ..n
                }
            } else {
                n
            },
    )
}

/// The views of stored nodes.
pub open spec fn node_views(nodes: Seq<NodeRecord>) -> Seq<NodeView> {
    nodes.map_values(|n: NodeRecord| n@)
}

/// The views of stored tokens.
pub open spec fn token_views(tokens: Seq<TokenRecord>) -> Seq<TokenView> {
    tokens.map_values(|t: TokenRecord| t@)
}

/// All nodes and tokens.
pub struct Directory {
    nodes: Vec<NodeRecord>,
    tokens: Vec<TokenRecord>,
}

/// Whether a node can be stored.
pub open spec fn storable(n: NodeView) -> bool {
    n.wg.len() <= MAX_KEY_BYTES
}

impl Directory {
    /// The nodes, in the order of their registration.
    pub closed spec fn nodes(self) -> Seq<NodeView> {
        node_views(self.nodes@)
    }

    /// The tokens, in the order of their issue.
    pub closed spec fn tokens(self) -> Seq<TokenView> {
        token_views(self.tokens@)
    }

    /// No two nodes clash, no token stands twice, every token belongs to a node,
    /// and every identity has the length of a key.
    pub open spec fn wf(self) -> bool {
        &&& forall|i: int, j: int|
            0 <= i < j < self.nodes().len() ==> !clash(
                #[trigger] self.nodes()[i],
                #[trigger] self.nodes()[j],
            )
        &&& forall|i: int, j: int|
            0 <= i < j < self.tokens().len() ==> (#[trigger] self.tokens()[i]).token != (
            #[trigger] self.tokens()[j]).token
        &&& forall|i: int|
            0 <= i < self.tokens().len() ==> self.has_node((#[trigger] self.tokens()[i]).node_id)
        &&& forall|i: int|
            0 <= i < self.nodes().len() ==> storable(#[trigger] self.nodes()[i])
    }

    /// Whether there is a node with an identifier.
    pub open spec fn has_node(self, id: Seq<char>) -> bool {
        exists|j: int| 0 <= j < self.nodes().len() && (#[trigger] self.nodes()[j]).node_id == id
    }

    /// Whether there is a token.
    pub open spec fn has_token(self, token: Seq<char>) -> bool {
        exists|i: int|
            0 <= i < self.tokens().len() && (#[trigger] self.tokens()[i]).token == token
    }

    /// Whether a node clashes with one of the directory.
    pub open spec fn clashes(self, n: NodeView) -> bool {
        exists|j: int| 0 <= j < self.nodes().len() && clash(#[trigger] self.nodes()[j], n)
    }

    /// Whether `i` is a token that counts at `now`, and `j` the node it belongs to.
    pub open spec fn grants(self, i: int, j: int, token: Seq<char>, now: i64) -> bool {
        &&& 0 <= i < self.tokens().len()
        &&& 0 <= j < self.nodes().len()
        &&& self.tokens()[i].token == token
        &&& !self.tokens()[i].revoked
        &&& self.tokens()[i].expires_at > now
        &&& self.nodes()[j].node_id == self.tokens()[i].node_id
    }

    /// The node that a token counts for at `now`.
    pub open spec fn holder(self, token: Seq<char>, now: i64) -> Option<NodeView> {
        if exists|i: int, j: int| self.grants(i, j, token, now) {
            let (i, j) = choose|i: int, j: int| self.grants(i, j, token, now);
            Some(self.nodes()[j])
        } else {
            None
        }
    }

    /// The address of the node with an identifier.
    pub open spec fn address_of(self, id: Seq<char>) -> Option<Seq<char>> {
        if self.has_node(id) {
            Some(self.nodes()[choose|j: int|
                0 <= j < self.nodes().len() && (#[trigger] self.nodes()[j]).node_id == id].ip)
        } else {
            None
        }
    }

    /// An empty directory.
    pub fn new() -> (r: Self)
        ensures
            r.wf(),
            r.nodes().len() == 0,
            r.tokens().len() == 0,
    {
        Directory { nodes: Vec::new(), tokens: Vec::new() }
    }

    /// The directory that holds stored rows, where they are in order.
    pub fn restore(nodes: Vec<NodeRecord>, tokens: Vec<TokenRecord>) -> (r: Result<Self, Error>)
        ensures
            match r {
                Ok(d) => {
                    &&& d.wf()
                    &&& d.nodes() == node_views(nodes@)
                    &&& d.tokens() == token_views(tokens@)
                },
                Err(e) => {
                    &&& e@ is Database
                    &&& forall|d: Directory|
                        d.nodes() == node_views(nodes@) && #[trigger] d.tokens() == token_views(
                            tokens@,
                        ) ==> !d.wf()
                },
            },
    {
        let mut d = Directory::new();
        let mut j: usize = 0;
        assert(node_views(nodes@).take(0) =~= d.nodes());
        while j < nodes.len()
            invariant
                j <= nodes@.len(),
                d.wf(),
                d.nodes() == node_views(nodes@).take(j as int),
                d.tokens().len() == 0,
            decreases nodes@.len() - j,
        {
            let ghost before = d;
            let ghost all = node_views(nodes@);
            assert(nodes@[j as int]@ == all[j as int]);
            let clash_found = d.find_clash(&nodes[j]);
            if clash_found.is_some() || nodes[j].wg_pubkey.len() > MAX_KEY_BYTES {
                proof {
                    assert forall|o: Directory|
                        o.nodes() == all && #[trigger] o.tokens() == token_views(
                            tokens@,
                        ) implies !o.wf() by {
                        if before.clashes(all[j as int]) {
                            let k = choose|k: int|
                                0 <= k < before.nodes().len() && clash(
                                    #[trigger] before.nodes()[k],
                                    all[j as int],
                                );
                            assert(o.nodes()[k] == before.nodes()[k]);
                            assert(clash(o.nodes()[k], o.nodes()[j as int]));
                        } else {
                            assert(!storable(o.nodes()[j as int]));
                        }
                    }
                }
                return Err(Error::Database("stored nodes clash".to_string()));
            }
            d.nodes.push(nodes[j].clone());
            proof {
                assert(d.nodes() =~= before.nodes().push(all[j as int]));
                assert(d.tokens() =~= before.tokens());
                d.lemma_grown(before, all[j as int]);
                assert(all.take(j + 1) =~= all.take(j as int).push(all[j as int]));
            }
            j = j + 1;
        }
        assert(node_views(nodes@).take(j as int) =~= node_views(nodes@));
        let mut i: usize = 0;
        assert(token_views(tokens@).take(0) =~= d.tokens());
        while i < tokens.len()
            invariant
                i <= tokens@.len(),
                d.wf(),
                d.nodes() == node_views(nodes@),
                d.tokens() == token_views(tokens@).take(i as int),
            decreases tokens@.len() - i,
        {
            let ghost before = d;
            let ghost all = token_views(tokens@);
            let t = &tokens[i];
            assert(t@ == all[i as int]);
            if d.find_token(t.token.as_str()).is_some() || d.find_node(t.node_id.as_str()).is_none() {
                proof {
                    assert forall|o: Directory|
                        o.nodes() == node_views(nodes@) && #[trigger] o.tokens() == all implies
                        !o.wf() by {
                        if before.has_token(t@.token) {
                            let k = choose|k: int|
                                0 <= k < before.tokens().len() && (
                                #[trigger] before.tokens()[k]).token == t@.token;
                            assert(o.tokens()[k] == before.tokens()[k]);
                            assert(o.tokens()[k].token == o.tokens()[i as int].token);
                        } else {
                            if o.has_node(o.tokens()[i as int].node_id) {
                                let c = choose|c: int|
                                    0 <= c < o.nodes().len() && (#[trigger] o.nodes()[c]).node_id
                                        == t@.node_id;
                                assert(before.nodes()[c].node_id == t@.node_id);
                            }
                        }
                    }
                }
                return Err(Error::Database("stored tokens clash".to_string()));
            }
            d.tokens.push(t.clone());
            proof {
                assert(d.tokens() =~= before.tokens().push(all[i as int]));
                assert(d.nodes() =~= before.nodes());
                d.lemma_issued(before, all[i as int]);
                assert(all.take(i + 1) =~= all.take(i as int).push(all[i as int]));
            }
            i = i + 1;
        }
        assert(token_views(tokens@).take(i as int) =~= token_views(tokens@));
        Ok(d)
    }

    /// A token more of a node keeps the directory in order.
    proof fn lemma_issued(self, before: Directory, v: TokenView)
        requires
            before.wf(),
            !before.has_token(v.token),
            before.has_node(v.node_id),
            self.nodes() == before.nodes(),
            self.tokens() == before.tokens().push(v),
        ensures
            self.wf(),
    {
        let n = before.tokens().len() as int;
        assert forall|i: int, j: int| 0 <= i < j < self.tokens().len() implies (
        #[trigger] self.tokens()[i]).token != (#[trigger] self.tokens()[j]).token by {
            assert(before.tokens()[i].token != v.token);
            if j < n {
                assert(before.tokens()[i].token != before.tokens()[j].token);
            }
        }
        assert forall|i: int| 0 <= i < self.tokens().len() implies self.has_node(
            (#[trigger] self.tokens()[i]).node_id,
        ) by {
            if i < n {
                assert(before.has_node(before.tokens()[i].node_id));
            }
        }
    }

    fn find_node(&self, id: &str) -> (r: Option<usize>)
        requires
            self.wf(),
        ensures
            match r {
                Some(j) => j < self.nodes@.len() && self.nodes()[j as int].node_id == id@
                    && self.nodes()[j as int] == self.nodes@[j as int]@,
                None => !self.has_node(id@),
            },
    {
        let wanted = id.to_string();
        let mut j: usize = 0;
        while j < self.nodes.len()
            invariant
                j <= self.nodes@.len(),
                wanted@ == id@,
                forall|k: int| 0 <= k < j ==> (#[trigger] self.nodes@[k])@.node_id != id@,
            decreases self.nodes@.len() - j,
        {
            if self.nodes[j].node_id == wanted {
                return Some(j);
            }
            j = j + 1;
        }
        None
    }

    fn find_token(&self, token: &str) -> (r: Option<usize>)
        requires
            self.wf(),
        ensures
            match r {
                Some(i) => i < self.tokens@.len() && self.tokens()[i as int].token == token@
                    && self.tokens()[i as int] == self.tokens@[i as int]@,
                None => !self.has_token(token@),
            },
    {
        let wanted = token.to_string();
        let mut i: usize = 0;
        while i < self.tokens.len()
            invariant
                i <= self.tokens@.len(),
                wanted@ == token@,
                forall|k: int| 0 <= k < i ==> (#[trigger] self.tokens@[k])@.token != token@,
            decreases self.tokens@.len() - i,
        {
            if self.tokens[i].token == wanted {
                return Some(i);
            }
            i = i + 1;
        }
        None
    }

    /// The nodes other than an excluded one, in the order of their registration.
    pub fn list_peers(&self, exclude_node_id: Option<&str>) -> (r: Vec<NodeRecord>)
        requires
            self.wf(),
        ensures
            node_views(r@) == match exclude_node_id {
                Some(id) => nodes_without(self.nodes(), id@),
                None => self.nodes(),
            },
    {
        let mut out: Vec<NodeRecord> = Vec::new();
        let excluded = match exclude_node_id {
            Some(id) => Some(id.to_string()),
            None => None,
        };
        let mut j: usize = 0;
        assert(node_views(out@) =~= self.nodes().take(0));
        proof {
            if let Some(id) = exclude_node_id {
                lemma_filter_empty(self.nodes(), other_node(id@));
            }
        }
        while j < self.nodes.len()
            invariant
                j <= self.nodes@.len(),
                match exclude_node_id {
                    Some(id) => excluded matches Some(x) && x@ == id@,
                    None => excluded is None,
                },
                node_views(out@) == match exclude_node_id {
                    Some(id) => nodes_without(self.nodes().take(j as int), id@),
                    None => self.nodes().take(j as int),
                },
            decreases self.nodes@.len() - j,
        {
            let ghost before = out@;
            proof {
                if let Some(id) = exclude_node_id {
                    lemma_filter_step(self.nodes(), other_node(id@), j as int);
                }
                assert(self.nodes().take(j + 1) =~= self.nodes().take(j as int).push(
                    self.nodes()[j as int],
                ));
            }
            let skip = match &excluded {
                Some(x) => self.nodes[j].node_id == *x,
                None => false,
            };
            if !skip {
                out.push(self.nodes[j].clone());
                assert(node_views(out@) =~= node_views(before).push(self.nodes()[j as int]));
            }
            j = j + 1;
        }
        assert(self.nodes().take(j as int) =~= self.nodes());
        out
    }

    proof fn lemma_holder(self, i: int, j: int, token: Seq<char>, now: i64)
        requires
            self.wf(),
            self.grants(i, j, token, now),
        ensures
            self.holder(token, now) == Some(self.nodes()[j]),
    {
        let (a, b) = choose|a: int, b: int| self.grants(a, b, token, now);
        assert(self.grants(a, b, token, now));
        assert(a == i) by {
            if a < i {
                assert(self.tokens()[a].token != self.tokens()[i].token);
            } else if i < a {
                assert(self.tokens()[i].token != self.tokens()[a].token);
            }
        }
        assert(b == j) by {
            if b < j {
                assert(!clash(self.nodes()[b], self.nodes()[j]));
            } else if j < b {
                assert(!clash(self.nodes()[j], self.nodes()[b]));
            }
        }
    }

    /// The node that a token counts for. It counts for none where it is unknown,
    /// was taken back or has expired.
    pub fn get_node_by_token(&self, token: &str, now: i64) -> (r: Option<NodeRecord>)
        requires
            self.wf(),
        ensures
            match r {
                Some(n) => self.holder(token@, now) == Some(n@),
                None => self.holder(token@, now) is None,
            },
    {
        let i: usize = match self.find_token(token) {
            Some(i) => i,
            None => {
                assert(forall|a: int, b: int| !self.grants(a, b, token@, now));
                return None;
            },
        };
        let t = &self.tokens[i];
        if t.revoked || t.expires_at <= now {
            proof {
                assert forall|a: int, b: int| !self.grants(a, b, token@, now) by {
                    if self.grants(a, b, token@, now) {
                        if a < i {
                            assert(self.tokens()[a].token != self.tokens()[i as int].token);
                        } else if i < a {
                            assert(self.tokens()[i as int].token != self.tokens()[a].token);
                        }
                    }
                }
            }
            return None;
        }
        match self.find_node(t.node_id.as_str()) {
            Some(j) => {
                proof {
                    assert(self.grants(i as int, j as int, token@, now));
                    self.lemma_holder(i as int, j as int, token@, now);
                }
                Some(self.nodes[j].clone())
            },
            None => {
                assert(self.has_node(self.tokens()[i as int].node_id));
                None
            },
        }
    }

    /// A token counts for a node of the directory, and that node's address is the
    /// one that is found under its identifier.
    pub proof fn lemma_holder_is_node(self, token: Seq<char>, now: i64, other: Directory)
        requires
            self.wf(),
            self.holder(token, now) is Some,
            other.nodes() == self.nodes(),
        ensures
            self.nodes().contains(self.holder(token, now)->0),
            other.has_node(self.holder(token, now)->0.node_id),
            self.address_of(self.holder(token, now)->0.node_id) == Some(
                self.holder(token, now)->0.ip,
            ),
    {
        let (i, j) = choose|i: int, j: int| self.grants(i, j, token, now);
        assert(self.grants(i, j, token, now));
        let n = self.nodes()[j];
        assert(other.nodes()[j].node_id == n.node_id);
        assert(self.has_node(n.node_id));
        let c = choose|c: int|
            0 <= c < self.nodes().len() && (#[trigger] self.nodes()[c]).node_id == n.node_id;
        if c < j {
            assert(!clash(self.nodes()[c], self.nodes()[j]));
        } else if j < c {
            assert(!clash(self.nodes()[j], self.nodes()[c]));
        }
    }

    /// Taking tokens back neither adds a token nor drops one.
    pub proof fn lemma_revoked_tokens(self, after: Directory, id: Seq<char>, token: Seq<char>)
        requires
            after.tokens() == tokens_revoked(self.tokens(), id),
        ensures
            after.has_token(token) == self.has_token(token),
    {
        if self.has_token(token) {
            let i = choose|i: int|
                0 <= i < self.tokens().len() && (#[trigger] self.tokens()[i]).token == token;
            assert(after.tokens()[i].token == token);
        }
        if after.has_token(token) {
            let i = choose|i: int|
                0 <= i < after.tokens().len() && (#[trigger] after.tokens()[i]).token == token;
            assert(self.tokens()[i].token == token);
        }
    }

    /// The record of a token, whether it counts or not.
    pub fn get_token(&self, token: &str) -> (r: Option<TokenRecord>)
        requires
            self.wf(),
        ensures
            match r {
                Some(t) => t@.token == token@ && self.tokens().contains(t@),
                None => !self.has_token(token@),
            },
    {
        match self.find_token(token) {
            Some(i) => {
                let t = self.tokens[i].clone();
                assert(self.tokens()[i as int] == t@);
                Some(t)
            },
            None => None,
        }
    }

    /// Records that a node was seen at an endpoint.
    pub fn update_endpoint(&mut self, node_id: &str, endpoint: &str, last_seen: i64)
        requires
            old(self).wf(),
        ensures
            final(self).wf(),
            final(self).nodes() == nodes_seen(
                old(self).nodes(),
                node_id@,
                endpoint@,
                None,
                last_seen,
            ),
            final(self).tokens() == old(self).tokens(),
    {
        self.update_heartbeat(node_id, endpoint, None, last_seen);
    }

    /// Records that a node was seen at an endpoint, behind a relay where one is
    /// given.
    pub fn update_heartbeat(
        &mut self,
        node_id: &str,
        endpoint: &str,
        via_relay: Option<&str>,
        last_seen: i64,
    )
        requires
            old(self).wf(),
        ensures
            final(self).wf(),
            final(self).nodes() == nodes_seen(
                old(self).nodes(),
                node_id@,
                endpoint@,
                crate::coord::auth::text_of(via_relay),
                last_seen,
            ),
            final(self).tokens() == old(self).tokens(),
    {
        let ghost seen = nodes_seen(
            old(self).nodes(),
            node_id@,
            endpoint@,
            crate::coord::auth::text_of(via_relay),
            last_seen,
        );
        match self.find_node(node_id) {
            Some(j) => {
                self.nodes[j].last_endpoint = Some(endpoint.to_string());
                if let Some(r) = via_relay {
                    self.nodes[j].via_relay = Some(r.to_string());
                }
                self.nodes[j].last_seen = Some(last_seen);
                proof {
                    assert forall|k: int| 0 <= k < seen.len() implies #[trigger] self.nodes()[k]
                        == seen[k] by {
                        if k < j {
                            assert(!clash(old(self).nodes()[k], old(self).nodes()[j as int]));
                        } else if j < k {
                            assert(!clash(old(self).nodes()[j as int], old(self).nodes()[k]));
                        } else {
                            assert(self.nodes()[k] =~= seen[k]);
                        }
                    }
                }
            },
            None => {
                proof {
                    assert forall|k: int| 0 <= k < seen.len() implies #[trigger] self.nodes()[k]
                        == seen[k] by {
                        assert(old(self).nodes()[k].node_id != node_id@);
                    }
                }
            },
        }
        assert(self.nodes() =~= seen);
        proof {
            self.lemma_same_keys(*old(self));
        }
    }

    /// Changes that keep what must not clash keep the directory in order.
    proof fn lemma_same_keys(self, before: Directory)
        requires
            before.wf(),
            self.nodes().len() == before.nodes().len(),
            self.tokens().len() == before.tokens().len(),
            forall|k: int|
                0 <= k < self.nodes().len() ==> {
                    let a = #[trigger] self.nodes()[k];
                    let b = before.nodes()[k];
                    a.node_id == b.node_id && a.identity == b.identity && a.wg == b.wg && a.ip
                        == b.ip
                },
            forall|k: int|
                0 <= k < self.tokens().len() ==> (#[trigger] self.tokens()[k]).token
                    == before.tokens()[k].token && self.tokens()[k].node_id
                    == before.tokens()[k].node_id,
        ensures
            self.wf(),
    {
        assert forall|i: int, j: int| 0 <= i < j < self.nodes().len() implies !clash(
            #[trigger] self.nodes()[i],
            #[trigger] self.nodes()[j],
        ) by {
            assert(!clash(before.nodes()[i], before.nodes()[j]));
        }
        assert forall|i: int, j: int| 0 <= i < j < self.tokens().len() implies (
        #[trigger] self.tokens()[i]).token != (#[trigger] self.tokens()[j]).token by {
            assert(before.tokens()[i].token != before.tokens()[j].token);
        }
        assert forall|i: int| 0 <= i < self.tokens().len() implies self.has_node(
            (#[trigger] self.tokens()[i]).node_id,
        ) by {
            assert(before.has_node(before.tokens()[i].node_id));
            let j = choose|j: int|
                0 <= j < before.nodes().len() && (#[trigger] before.nodes()[j]).node_id
                    == before.tokens()[i].node_id;
            assert(self.nodes()[j].node_id == self.tokens()[i].node_id);
        }
        assert forall|i: int| 0 <= i < self.nodes().len() implies storable(
            #[trigger] self.nodes()[i],
        ) by {
            assert(storable(before.nodes()[i]));
        }
    }

    /// What a node clashes with, if it does, in words.
    fn find_clash(&self, n: &NodeRecord) -> (r: Option<&'static str>)
        requires
            self.wf(),
        ensures
            r is Some <==> self.clashes(n@),
    {
        let mut j: usize = 0;
        while j < self.nodes.len()
            invariant
                j <= self.nodes@.len(),
                forall|k: int| 0 <= k < j ==> !clash(#[trigger] self.nodes()[k], n@),
            decreases self.nodes@.len() - j,
        {
            let m = &self.nodes[j];
            assert(self.nodes()[j as int] == m@);
            if m.node_id == n.node_id {
                return Some("UNIQUE constraint failed: nodes.node_id");
            }
            if crate::bytes::same_bytes(m.identity_pubkey.as_slice(), n.identity_pubkey.as_slice()) {
                return Some("UNIQUE constraint failed: nodes.identity_pubkey");
            }
            if crate::bytes::same_bytes(m.wg_pubkey.as_slice(), n.wg_pubkey.as_slice()) {
                return Some("UNIQUE constraint failed: nodes.wg_pubkey");
            }
            if m.ip == n.ip {
                return Some("UNIQUE constraint failed: nodes.ip");
            }
            j = j + 1;
        }
        None
    }

    /// What adding a node with its first token leads to. A node that clashes is
    /// refused; where only the token is already there, the node stays.
    pub open spec fn inserted(
        self,
        node: NodeView,
        token: Seq<char>,
        ttl_secs: i64,
        after: Directory,
        r: Result<(), Error>,
    ) -> bool {
        let fresh = NodeView { last_endpoint: None, last_seen: None, ..node };
        if self.clashes(node) {
            &&& r matches Err(e) && e@ is Database
            &&& after.nodes() == self.nodes()
            &&& after.tokens() == self.tokens()
        } else {
            &&& after.nodes() == self.nodes().push(fresh)
            &&& if self.has_token(token) {
                &&& r matches Err(e) && e@ is Database
                &&& after.tokens() == self.tokens()
            } else {
                &&& r is Ok
                &&& after.tokens() == self.tokens().push(
                    issued(token, node.node_id, node.created_at, ttl_secs),
                )
            }
        }
    }

    /// Adds a node that has not been seen yet, with its first token. A node that
    /// clashes is refused; where only the token is already there, the node stays.
    pub fn insert_node(&mut self, node: &NodeRecord, token: &str, ttl_secs: i64) -> (r: Result<
        (),
        Error,
    >)
        requires
            old(self).wf(),
            storable(node@),
            i64::MIN <= node.created_at + ttl_secs <= i64::MAX,
        ensures
            final(self).wf(),
            old(self).inserted(node@, token@, ttl_secs, *final(self), r),
    {
        match self.find_clash(node) {
            Some(what) => return Err(Error::Database(what.to_string())),
            None => {},
        }
        let mut fresh = node.clone();
        fresh.last_endpoint = None;
        fresh.last_seen = None;
        let ghost v = NodeView { last_endpoint: None, last_seen: None, ..node@ };
        assert(fresh@ =~= v);
        self.nodes.push(fresh);
        proof {
            assert(self.nodes() =~= old(self).nodes().push(v));
            assert(self.tokens() =~= old(self).tokens());
            self.lemma_grown(*old(self), v);
        }
        self.create_token(node.node_id.as_str(), token, node.created_at, ttl_secs)
    }

    /// A node more that does not clash keeps the directory in order.
    proof fn lemma_grown(self, before: Directory, v: NodeView)
        requires
            before.wf(),
            !before.clashes(v),
            storable(v),
            self.nodes() == before.nodes().push(v),
            self.tokens() == before.tokens(),
        ensures
            self.wf(),
            self.has_node(v.node_id),
    {
        let n = before.nodes().len() as int;
        assert(self.nodes()[n] == v);
        assert forall|i: int, j: int| 0 <= i < j < self.nodes().len() implies !clash(
            #[trigger] self.nodes()[i],
            #[trigger] self.nodes()[j],
        ) by {
            if j == n {
                assert(!clash(before.nodes()[i], v));
            } else {
                assert(!clash(before.nodes()[i], before.nodes()[j]));
            }
        }
        assert forall|i: int| 0 <= i < self.tokens().len() implies self.has_node(
            (#[trigger] self.tokens()[i]).node_id,
        ) by {
            assert(before.has_node(before.tokens()[i].node_id));
            let j = choose|j: int|
                0 <= j < before.nodes().len() && (#[trigger] before.nodes()[j]).node_id
                    == before.tokens()[i].node_id;
            assert(self.nodes()[j].node_id == self.tokens()[i].node_id);
        }
        assert forall|i: int| 0 <= i < self.nodes().len() implies storable(
            #[trigger] self.nodes()[i],
        ) by {
            if i < n {
                assert(storable(before.nodes()[i]));
            }
        }
    }

    /// Issues a token to a node. It is refused where the token is already there or
    /// there is no such node.
    pub fn create_token(&mut self, node_id: &str, token: &str, created_at: i64, ttl_secs: i64) -> (r:
        Result<(), Error>)
        requires
            old(self).wf(),
            i64::MIN <= created_at + ttl_secs <= i64::MAX,
        ensures
            final(self).wf(),
            final(self).nodes() == old(self).nodes(),
            if old(self).has_token(token@) || !old(self).has_node(node_id@) {
                &&& r matches Err(e) && e@ is Database
                &&& final(self).tokens() == old(self).tokens()
            } else {
                &&& r is Ok
                &&& final(self).tokens() == old(self).tokens().push(
                    issued(token@, node_id@, created_at, ttl_secs),
                )
            },
    {
        if self.find_token(token).is_some() {
            return Err(Error::Database("UNIQUE constraint failed: tokens.token".to_string()));
        }
        if self.find_node(node_id).is_none() {
            return Err(Error::Database("FOREIGN KEY constraint failed".to_string()));
        }
        let t = TokenRecord {
            token: token.to_string(),
            node_id: node_id.to_string(),
            created_at,
            expires_at: created_at + ttl_secs,
            revoked: false,
        };
        let ghost v = issued(token@, node_id@, created_at, ttl_secs);
        assert(t@ =~= v);
        self.tokens.push(t);
        proof {
            assert(self.tokens() =~= old(self).tokens().push(v));
            assert(self.nodes() =~= old(self).nodes());
            self.lemma_issued(*old(self), v);
        }
        Ok(())
    }

    /// Takes back every token of a node, and says how many had not been taken back
    /// before.
    pub fn revoke_all_tokens_for_node(&mut self, node_id: &str) -> (r: usize)
        requires
            old(self).wf(),
        ensures
            final(self).wf(),
            final(self).nodes() == old(self).nodes(),
            final(self).tokens() == tokens_revoked(old(self).tokens(), node_id@),
            r == count_unrevoked(old(self).tokens(), node_id@),
    {
        let wanted = node_id.to_string();
        let ghost all = self.tokens();
        let mut n: usize = 0;
        let mut i: usize = 0;
        while i < self.tokens.len()
            invariant
                i <= self.tokens@.len() == all.len(),
                wanted@ == node_id@,
                all == old(self).tokens(),
                self.nodes == old(self).nodes,
                n <= i,
                n == count_unrevoked(all.take(i as int), node_id@),
                forall|k: int|
                    0 <= k < i ==> (#[trigger] self.tokens@[k])@ == tokens_revoked(
                        all,
                        node_id@,
                    )[k],
                forall|k: int| i <= k < all.len() ==> (#[trigger] self.tokens@[k])@ == all[k],
            decreases self.tokens@.len() - i,
        {
            assert(all.take(i + 1).drop_last() =~= all.take(i as int));
            assert(self.tokens@[i as int]@ == all[i as int]);
            if self.tokens[i].node_id == wanted {
                if !self.tokens[i].revoked {
                    self.tokens[i].revoked = true;
                    n = n + 1;
                }
            }
            assert(self.tokens@[i as int]@ =~= tokens_revoked(all, node_id@)[i as int]);
            i = i + 1;
        }
        proof {
            assert(all.take(i as int) =~= all);
            assert(self.tokens() =~= tokens_revoked(all, node_id@));
            self.lemma_same_keys(*old(self));
        }
        n
    }

    /// Deletes a node and all its tokens, and says which address it had.
    pub fn delete_node(&mut self, node_id: &str) -> (r: Option<String>)
        requires
            old(self).wf(),
        ensures
            final(self).wf(),
            final(self).nodes() == nodes_without(old(self).nodes(), node_id@),
            final(self).tokens() == tokens_without(old(self).tokens(), node_id@),
            chars_of(r) == old(self).address_of(node_id@),
    {
        let ip = match self.find_node(node_id) {
            Some(j) => {
                proof {
                    let c = choose|c: int|
                        0 <= c < self.nodes().len() && (#[trigger] self.nodes()[c]).node_id
                            == node_id@;
                    assert(self.has_node(node_id@));
                    if c < j {
                        assert(!clash(self.nodes()[c], self.nodes()[j as int]));
                    } else if j < c {
                        assert(!clash(self.nodes()[j as int], self.nodes()[c]));
                    }
                }
                Some(self.nodes[j].ip.clone())
            },
            None => None,
        };
        let wanted = node_id.to_string();
        let ghost all_tokens = self.tokens();
        let ghost mut p: int = 0;
        let mut i: usize = 0;
        proof {
            lemma_filter_empty(all_tokens, other_token(node_id@));
        }
        assert(self.tokens().take(0) =~= tokens_without(all_tokens.take(0), node_id@));
        assert(self.tokens().skip(0) =~= all_tokens.skip(0));
        while i < self.tokens.len()
            invariant
                wanted@ == node_id@,
                self.nodes == old(self).nodes,
                i <= self.tokens@.len(),
                0 <= p <= all_tokens.len(),
                self.tokens().len() - i == all_tokens.len() - p,
                self.tokens().take(i as int) == tokens_without(all_tokens.take(p), node_id@),
                self.tokens().skip(i as int) == all_tokens.skip(p),
            decreases self.tokens@.len() - i,
        {
            let ghost before = self.tokens();
            proof {
                assert(before[i as int] == before.skip(i as int)[0]);
                assert(all_tokens[p] == all_tokens.skip(p)[0]);
                assert(before[i as int] == self.tokens@[i as int]@);
                lemma_filter_step(all_tokens, other_token(node_id@), p);
            }
            if self.tokens[i].node_id == wanted {
                self.tokens.remove(i);
                proof {
                    assert(self.tokens() =~= before.remove(i as int));
                    assert(self.tokens().take(i as int) =~= before.take(i as int));
                    assert(self.tokens().skip(i as int) =~= before.skip(i as int).skip(1));
                    assert(all_tokens.skip(p + 1) =~= all_tokens.skip(p).skip(1));
                }
            } else {
                i = i + 1;
                proof {
                    assert(self.tokens().take(i as int) =~= before.take(i - 1).push(before[i - 1]));
                    assert(self.tokens().skip(i as int) =~= before.skip(i - 1).skip(1));
                    assert(all_tokens.skip(p + 1) =~= all_tokens.skip(p).skip(1));
                }
            }
            proof {
                p = p + 1;
            }
        }
        proof {
            assert(self.tokens().take(i as int) =~= self.tokens());
            assert(all_tokens.take(p) =~= all_tokens);
        }
        self.remove_node(node_id);
        proof {
            self.lemma_deleted(*old(self), node_id@);
        }
        ip
    }

    fn remove_node(&mut self, node_id: &str)
        ensures
            final(self).nodes() == nodes_without(old(self).nodes(), node_id@),
            final(self).tokens() == old(self).tokens(),
    {
        let wanted = node_id.to_string();
        let ghost all = self.nodes();
        let ghost mut p: int = 0;
        let mut i: usize = 0;
        proof {
            lemma_filter_empty(all, other_node(node_id@));
        }
        assert(self.nodes().take(0) =~= nodes_without(all.take(0), node_id@));
        assert(self.nodes().skip(0) =~= all.skip(0));
        while i < self.nodes.len()
            invariant
                wanted@ == node_id@,
                self.tokens == old(self).tokens,
                i <= self.nodes@.len(),
                0 <= p <= all.len(),
                self.nodes().len() - i == all.len() - p,
                self.nodes().take(i as int) == nodes_without(all.take(p), node_id@),
                self.nodes().skip(i as int) == all.skip(p),
            decreases self.nodes@.len() - i,
        {
            let ghost before = self.nodes();
            proof {
                assert(before[i as int] == before.skip(i as int)[0]);
                assert(all[p] == all.skip(p)[0]);
                assert(before[i as int] == self.nodes@[i as int]@);
                lemma_filter_step(all, other_node(node_id@), p);
            }
            if self.nodes[i].node_id == wanted {
                self.nodes.remove(i);
                proof {
                    assert(self.nodes() =~= before.remove(i as int));
                    assert(self.nodes().take(i as int) =~= before.take(i as int));
                    assert(self.nodes().skip(i as int) =~= before.skip(i as int).skip(1));
                    assert(all.skip(p + 1) =~= all.skip(p).skip(1));
                }
            } else {
                i = i + 1;
                proof {
                    assert(self.nodes().take(i as int) =~= before.take(i - 1).push(before[i - 1]));
                    assert(self.nodes().skip(i as int) =~= before.skip(i - 1).skip(1));
                    assert(all.skip(p + 1) =~= all.skip(p).skip(1));
                }
            }
            proof {
                p = p + 1;
            }
        }
        proof {
            assert(self.nodes().take(i as int) =~= self.nodes());
            assert(all.take(p) =~= all);
        }
    }

    /// Deleting a node with its tokens keeps the directory in order.
    proof fn lemma_deleted(self, before: Directory, id: Seq<char>)
        requires
            before.wf(),
            self.nodes() == nodes_without(before.nodes(), id),
            self.tokens() == tokens_without(before.tokens(), id),
        ensures
            self.wf(),
    {
        lemma_nodes_without(before.nodes(), id);
        lemma_tokens_without(before.tokens(), id);
        assert forall|i: int, j: int| 0 <= i < j < self.nodes().len() implies !clash(
            #[trigger] self.nodes()[i],
            #[trigger] self.nodes()[j],
        ) by {
            lemma_filter_order(before.nodes(), other_node(id), i, j);
            let (a, b) = choose|a: int, b: int|
                0 <= a < b < before.nodes().len() && #[trigger] before.nodes()[a] == self.nodes()[i]
                    && #[trigger] before.nodes()[b] == self.nodes()[j];
            assert(!clash(before.nodes()[a], before.nodes()[b]));
        }
        assert forall|i: int, j: int| 0 <= i < j < self.tokens().len() implies (
        #[trigger] self.tokens()[i]).token != (#[trigger] self.tokens()[j]).token by {
            lemma_filter_order(before.tokens(), other_token(id), i, j);
            let (a, b) = choose|a: int, b: int|
                0 <= a < b < before.tokens().len() && #[trigger] before.tokens()[a]
                    == self.tokens()[i] && #[trigger] before.tokens()[b] == self.tokens()[j];
            assert(before.tokens()[a].token != before.tokens()[b].token);
        }
        assert forall|i: int| 0 <= i < self.tokens().len() implies self.has_node(
            (#[trigger] self.tokens()[i]).node_id,
        ) by {
            let t = self.tokens()[i];
            assert(tokens_without(before.tokens(), id).contains(t));
            let a = choose|a: int|
                0 <= a < before.tokens().len() && #[trigger] before.tokens()[a] == t;
            assert(before.has_node(before.tokens()[a].node_id));
            let b = choose|b: int|
                0 <= b < before.nodes().len() && (#[trigger] before.nodes()[b]).node_id
                    == t.node_id;
            assert(nodes_without(before.nodes(), id).contains(before.nodes()[b]));
            let c = choose|c: int|
                0 <= c < self.nodes().len() && #[trigger] self.nodes()[c] == before.nodes()[b];
            assert(self.nodes()[c].node_id == t.node_id);
        }
        assert forall|i: int| 0 <= i < self.nodes().len() implies storable(
            #[trigger] self.nodes()[i],
        ) by {
            assert(nodes_without(before.nodes(), id).contains(self.nodes()[i]));
        }
    }
}

/// A token as it is issued.
pub open spec fn issued(
    token: Seq<char>,
    node_id: Seq<char>,
    created_at: i64,
    ttl_secs: i64,
) -> TokenView {
    TokenView {
        token,
        node_id,
        created_at,
        expires_at: (created_at + ttl_secs) as i64,
        revoked: false,
    }
}

/// One element more in front of a filter.
proof fn lemma_filter_step<A>(s: Seq<A>, pred: spec_fn(A) -> bool, p: int)
    requires
        0 <= p < s.len(),
    ensures
        s.take(p + 1).filter(pred) == if pred(s[p]) {
            s.take(p).filter(pred).push(s[p])
        } else {
            s.take(p).filter(pred)
        },
{
    reveal(Seq::filter);
    assert(s.take(p + 1).drop_last() =~= s.take(p));
}

/// A filter lets nothing through of nothing.
proof fn lemma_filter_empty<A>(s: Seq<A>, pred: spec_fn(A) -> bool)
    ensures
        s.take(0).filter(pred) =~= Seq::<A>::empty(),
{
    reveal(Seq::filter);
}

/// A filter lets exactly those elements through that it is to let through.
proof fn lemma_filter_keeps<A>(s: Seq<A>, pred: spec_fn(A) -> bool)
    ensures
        forall|x: A| #[trigger] s.filter(pred).contains(x) <==> s.contains(x) && pred(x),
    decreases s.len(),
{
    reveal(Seq::filter);
    let out = s.filter(pred);
    if s.len() > 0 {
        let front = s.drop_last();
        let rest = front.filter(pred);
        lemma_filter_keeps(front, pred);
        assert forall|x: A| #[trigger] out.contains(x) <==> s.contains(x) && pred(x) by {
            if out.contains(x) {
                let k = choose|k: int| 0 <= k < out.len() && out[k] == x;
                if k < rest.len() {
                    assert(rest.contains(rest[k]));
                    let m = choose|m: int| 0 <= m < front.len() && front[m] == x;
                    assert(s[m] == x);
                } else {
                    assert(s[s.len() - 1] == x);
                }
            }
            if s.contains(x) && pred(x) {
                let m = choose|m: int| 0 <= m < s.len() && s[m] == x;
                if m < front.len() {
                    assert(front[m] == x);
                    assert(rest.contains(x));
                    let k = choose|k: int| 0 <= k < rest.len() && rest[k] == x;
                    assert(out[k] == x);
                } else {
                    assert(out[out.len() - 1] == x);
                }
            }
        }
    }
}

/// A filter keeps the order.
proof fn lemma_filter_order<A>(s: Seq<A>, pred: spec_fn(A) -> bool, i: int, j: int)
    requires
        0 <= i < j < s.filter(pred).len(),
    ensures
        exists|a: int, b: int|
            0 <= a < b < s.len() && #[trigger] s[a] == s.filter(pred)[i] && #[trigger] s[b]
                == s.filter(pred)[j],
    decreases s.len(),
{
    reveal(Seq::filter);
    let front = s.drop_last();
    let rest = front.filter(pred);
    let out = s.filter(pred);
    if j < rest.len() {
        lemma_filter_order(front, pred, i, j);
        let (a, b) = choose|a: int, b: int|
            0 <= a < b < front.len() && #[trigger] front[a] == rest[i] && #[trigger] front[b]
                == rest[j];
        assert(s[a] == out[i] && s[b] == out[j]);
    } else {
        lemma_filter_keeps(front, pred);
        assert(rest.contains(rest[i]));
        let a = choose|a: int| 0 <= a < front.len() && front[a] == rest[i];
        let b = s.len() - 1;
        assert(s[a] == out[i] && s[b] == out[j]);
    }
}

/// Leaving a node out leaves exactly the others.
pub proof fn lemma_nodes_without(nodes: Seq<NodeView>, id: Seq<char>)
    ensures
        forall|n: NodeView| #[trigger]
            nodes_without(nodes, id).contains(n) <==> nodes.contains(n) && n.node_id != id,
{
    lemma_filter_keeps(nodes, other_node(id));
}

/// Leaving a node's tokens out leaves exactly the others.
pub proof fn lemma_tokens_without(tokens: Seq<TokenView>, id: Seq<char>)
    ensures
        forall|t: TokenView| #[trigger]
            tokens_without(tokens, id).contains(t) <==> tokens.contains(t) && t.node_id != id,
{
    lemma_filter_keeps(tokens, other_token(id));
}

/// A token that has expired counts for nobody.
pub proof fn law_expired_token_is_rejected(d: Directory, token: Seq<char>, now: i64, i: int)
    requires
        d.wf(),
        0 <= i < d.tokens().len(),
        d.tokens()[i].token == token,
        d.tokens()[i].expires_at <= now,
    ensures
        d.holder(token, now) is None,
{
    assert forall|a: int, b: int| !d.grants(a, b, token, now) by {
        if d.grants(a, b, token, now) {
            if a < i {
                assert(d.tokens()[a].token != d.tokens()[i].token);
            } else if i < a {
                assert(d.tokens()[i].token != d.tokens()[a].token);
            }
        }
    }
}

/// A token that was taken back counts for nobody, at no time.
pub proof fn law_revoked_token_is_rejected(d: Directory, token: Seq<char>, now: i64, i: int)
    requires
        d.wf(),
        0 <= i < d.tokens().len(),
        d.tokens()[i].token == token,
        d.tokens()[i].revoked,
    ensures
        d.holder(token, now) is None,
{
    assert forall|a: int, b: int| !d.grants(a, b, token, now) by {
        if d.grants(a, b, token, now) {
            if a < i {
                assert(d.tokens()[a].token != d.tokens()[i].token);
            } else if i < a {
                assert(d.tokens()[i].token != d.tokens()[a].token);
            }
        }
    }
}

/// A token that is issued to a node counts for that node until it expires.
pub proof fn law_issued_token_counts(d: Directory, i: int, j: int, now: i64)
    requires
        d.wf(),
        0 <= i < d.tokens().len(),
        0 <= j < d.nodes().len(),
        d.tokens()[i].node_id == d.nodes()[j].node_id,
        !d.tokens()[i].revoked,
    ensures
        d.holder(d.tokens()[i].token, now) == if now < d.tokens()[i].expires_at {
            Some(d.nodes()[j])
        } else {
            None
        },
{
    if now < d.tokens()[i].expires_at {
        assert(d.grants(i, j, d.tokens()[i].token, now));
        d.lemma_holder(i, j, d.tokens()[i].token, now);
    } else {
        law_expired_token_is_rejected(d, d.tokens()[i].token, now, i);
    }
}

} // verus!
