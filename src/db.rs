//! The node database: the local identity, the post store, the seen index,
//! the trust set and the score table, each a table of the store.

use vstd::prelude::*;

use crate::bytes::{append_bytes, le_bytes, le_value, push_le, read_le, to_key};
use crate::crypto::{get_epoch, random_secret};
use crate::error::CoreError;
use crate::post::{forwarded_copy, post_id_of, IncomingPost, Node, OutgoingPost, PostId, Us};
use crate::record::{decode_incoming, encode_incoming, incoming_bytes, same_incoming};
use crate::store::{open_store, open_table, table_of, tree_contains, tree_get, tree_insert, tree_keys, tree_remove};

verus! {

/// The largest number of trusted peers before admission turns to eviction.
pub const MAX_PEERS: usize = 32;

/// The rating of a peer that has not been rated yet.
pub const DEFAULT_SCORE: usize = 1200;

/// Where the identity table keeps the secret key: the bytes of
/// `private_key`.
pub open spec fn identity_slot() -> Seq<u8> {
    seq![112u8, 114u8, 105u8, 118u8, 97u8, 116u8, 101u8, 95u8, 107u8, 101u8, 121u8]
}

/// The seen index's key for "`node` has handled post `id`".
pub open spec fn seen_key(node: Seq<u8>, id: Seq<u8>) -> Seq<u8> {
    node + id
}

/// A peer's rating in a score table, or `default` when it has none.
pub open spec fn score_of(m: Map<Seq<u8>, Seq<u8>>, k: Seq<u8>, default: nat) -> nat {
    if m.contains_key(k) {
        le_value(m[k])
    } else {
        default
    }
}

/// The peer's rating, if it has one, is stored in 8 bytes.
pub open spec fn score_readable(m: Map<Seq<u8>, Seq<u8>>, k: Seq<u8>) -> bool {
    m.contains_key(k) ==> m[k].len() == 8
}

/// The open store and its five tables. Only `NodeDB::new` makes one, and
/// the handles cannot be copied out.
pub struct Tables {
    store: sled::Db,
    identity: sled::Tree,
    posts: sled::Tree,
    seen: sled::Tree,
    trusted: sled::Tree,
    scores: sled::Tree,
}

impl Tables {
    pub closed spec fn identity_table(&self) -> Map<Seq<u8>, Seq<u8>> {
        table_of(self.identity)
    }

    pub closed spec fn posts_table(&self) -> Map<Seq<u8>, Seq<u8>> {
        table_of(self.posts)
    }

    pub closed spec fn seen_table(&self) -> Map<Seq<u8>, Seq<u8>> {
        table_of(self.seen)
    }

    pub closed spec fn trust_table(&self) -> Map<Seq<u8>, Seq<u8>> {
        table_of(self.trusted)
    }

    pub closed spec fn score_table(&self) -> Map<Seq<u8>, Seq<u8>> {
        table_of(self.scores)
    }
}

/// A node's state, kept in five tables of one store. `new` opens the store
/// from its path (the store takes an exclusive lock on it) and opens each
/// table once; the handles never leave this value.
pub struct NodeDB {
    pub us: Us,
    pub tables: Tables,
    pub bootstrap_nodes: Option<Vec<Node>>,
    pub max_peers: usize,
}

fn store_err<T>(r: Result<T, ()>) -> (o: Result<T, CoreError>)
    ensures
        r matches Ok(v) ==> o == Ok::<T, CoreError>(v),
        r is Err ==> o == Err::<T, CoreError>(CoreError::StoreError),
{
    match r {
        Ok(v) => Ok(v),
        Err(_) => Err(CoreError::StoreError),
    }
}

/// The current time, as the value of a seen or trust entry.
fn time_bytes() -> (r: Vec<u8>)
    ensures
        r@.len() == 8,
{
    let t = get_epoch();
    let mut out: Vec<u8> = Vec::new();
    push_le(&mut out, t as u128, 8);
    proof {
        crate::bytes::lemma_le_bytes_len(t as nat, 8);
    }
    out
}

/// The seen index's key for `node` and `post`.
fn seen_key_of(node: &Node, post: &PostId) -> (r: Vec<u8>)
    ensures
        r@ == seen_key(node.public_key@, post.raw@),
{
    let mut k: Vec<u8> = Vec::new();
    append_bytes(&mut k, node.public_key.as_slice());
    append_bytes(&mut k, post.raw.as_slice());
    k
}

/// The secret key stored in the identity table, or a fresh one that is
/// stored there.
fn load_identity(table: &mut sled::Tree) -> (r: Result<Us, CoreError>)
    ensures
        r matches Ok(us) ==> {
            &&& us.wf()
            &&& table_of(*final(table)).contains_key(identity_slot())
            &&& table_of(*final(table))[identity_slot()] == us.private_key@
            &&& table_of(*old(table)).contains_key(identity_slot()) ==> table_of(*old(table))[identity_slot()]
                == us.private_key@
        },
{
    let slot: Vec<u8> = vec![112u8, 114u8, 105u8, 118u8, 97u8, 116u8, 101u8, 95u8, 107u8, 101u8, 121u8];
    assert(slot@ =~= identity_slot());
    match store_err(tree_get(table, slot.as_slice()))? {
        Some(bytes) => match to_key(bytes.as_slice()) {
            Some(secret) => Ok(Us::new(secret)),
            None => Err(CoreError::StoreError),
        },
        None => {
            let secret = random_secret();
            store_err(tree_insert(table, slot.as_slice(), secret.as_slice()))?;
            Ok(Us::new(secret))
        },
    }
}

impl NodeDB {
    /// What the identity table holds.
    pub open spec fn identity_table(&self) -> Map<Seq<u8>, Seq<u8>> {
        self.tables.identity_table()
    }

    /// What the post store holds: post id to stored record.
    pub open spec fn posts_table(&self) -> Map<Seq<u8>, Seq<u8>> {
        self.tables.posts_table()
    }

    /// What the seen index holds: peer key followed by post id.
    pub open spec fn seen_table(&self) -> Map<Seq<u8>, Seq<u8>> {
        self.tables.seen_table()
    }

    /// What the trust set holds: peer key to the time it was trusted.
    pub open spec fn trust_table(&self) -> Map<Seq<u8>, Seq<u8>> {
        self.tables.trust_table()
    }

    /// What the score table holds: peer key to rating.
    pub open spec fn score_table(&self) -> Map<Seq<u8>, Seq<u8>> {
        self.tables.score_table()
    }

    /// Every key of the post store, once each.
    pub(crate) fn post_keys(&self) -> (r: Result<Vec<Vec<u8>>, CoreError>)
        ensures
            r matches Ok(ks) ==> {
                &&& forall|i: int| 0 <= i < ks.len() ==> self.posts_table().contains_key(#[trigger] ks[i]@)
                &&& forall|k: Seq<u8>| self.posts_table().contains_key(k) ==> exists|i: int|
                    0 <= i < ks.len() && #[trigger] ks[i]@ == k
                &&& forall|i: int, j: int| 0 <= i < j < ks.len() ==> ks[i]@ != ks[j]@
            },
            r is Err ==> r == Err::<Vec<Vec<u8>>, CoreError>(CoreError::StoreError),
    {
        let ks = store_err(tree_keys(&self.tables.posts))?;
        assert(self.posts_table() == table_of(self.tables.posts));
        assert forall|k: Seq<u8>| self.posts_table().contains_key(k) implies exists|i: int|
            0 <= i < ks.len() && #[trigger] ks[i]@ == k by {
            let i = choose|i: int| 0 <= i < ks@.len() && #[trigger] ks@[i]@ == k;
            assert(ks[i]@ == k);
        }
        Ok(ks)
    }

    /// The record stored under `key` in the post store, if any.
    pub(crate) fn post_record(&self, key: &[u8]) -> (r: Result<Option<Vec<u8>>, CoreError>)
        ensures
            r matches Ok(Some(v)) ==> self.posts_table().contains_key(key@) && self.posts_table()[key@] == v@,
            r matches Ok(None) ==> !self.posts_table().contains_key(key@),
            r is Err ==> r == Err::<Option<Vec<u8>>, CoreError>(CoreError::StoreError),
    {
        store_err(tree_get(&self.tables.posts, key))
    }

    /// Our key is the one that belongs to our secret.
    pub open spec fn wf(&self) -> bool {
        self.us.wf()
    }

    /// Whether the seen index says that `node` has handled post `id`.
    pub open spec fn seen_spec(&self, node: Seq<u8>, id: Seq<u8>) -> bool {
        self.seen_table().contains_key(seen_key(node, id))
    }

    /// The keys of the trusted peers.
    pub open spec fn trust_set(&self) -> Set<Seq<u8>> {
        self.trust_table().dom()
    }

    /// A peer's rating, or `default` when it has none.
    pub open spec fn score_spec(&self, node: Seq<u8>, default: nat) -> nat {
        score_of(self.score_table(), node, default)
    }

    /// Only the tables named change; identity, configuration and the rest
    /// stay.
    pub open spec fn same_except_seen_posts(&self, other: &NodeDB) -> bool {
        &&& self.us == other.us
        &&& self.identity_table() == other.identity_table()
        &&& self.trust_table() == other.trust_table()
        &&& self.score_table() == other.score_table()
        &&& self.bootstrap_nodes == other.bootstrap_nodes
        &&& self.max_peers == other.max_peers
    }

    pub open spec fn same_except_trust(&self, other: &NodeDB) -> bool {
        &&& self.us == other.us
        &&& self.identity_table() == other.identity_table()
        &&& self.posts_table() == other.posts_table()
        &&& self.seen_table() == other.seen_table()
        &&& self.score_table() == other.score_table()
        &&& self.bootstrap_nodes == other.bootstrap_nodes
        &&& self.max_peers == other.max_peers
    }

    pub open spec fn same_except_scores(&self, other: &NodeDB) -> bool {
        &&& self.us == other.us
        &&& self.identity_table() == other.identity_table()
        &&& self.posts_table() == other.posts_table()
        &&& self.seen_table() == other.seen_table()
        &&& self.trust_table() == other.trust_table()
        &&& self.bootstrap_nodes == other.bootstrap_nodes
        &&& self.max_peers == other.max_peers
    }

    /// Opens the store at `path`, opens its tables and loads the local identity, creating and
    /// storing one on first use.
    pub fn new(path: &str, bootstrap_nodes: Option<Vec<Node>>) -> (r: Result<NodeDB, CoreError>)
        ensures
            r matches Ok(n) ==> {
                &&& n.wf()
                &&& n.max_peers == MAX_PEERS
                &&& n.bootstrap_nodes == bootstrap_nodes
                &&& n.identity_table().contains_key(identity_slot())
                &&& n.identity_table()[identity_slot()] == n.us.private_key@
            },
    {
        let store = store_err(open_store(path))?;
        let mut identity = store_err(open_table(&store, "IDENTITY_TABLE"))?;
        let posts = store_err(open_table(&store, "POSTS_TABLE"))?;
        let seen = store_err(open_table(&store, "SEEN_TABLE"))?;
        let trusted = store_err(open_table(&store, "TRUST_TABLE"))?;
        let scores = store_err(open_table(&store, "SCORE_TABLE"))?;
        let us = load_identity(&mut identity)?;
        Ok(NodeDB { us, tables: Tables { store, identity, posts, seen, trusted, scores }, bootstrap_nodes, max_peers: MAX_PEERS })
    }

    /// The local identity.
    pub fn get_identity(&self) -> (r: Result<Us, CoreError>)
        ensures
            r == Ok::<Us, CoreError>(self.us),
    {
        Ok(self.us)
    }

    /// A fresh identity, not stored anywhere.
    pub fn generate_identity(&self) -> (r: Result<Us, CoreError>)
        ensures
            r matches Ok(us) && us.wf(),
    {
        Ok(Us::new(random_secret()))
    }

    /// Whether the seen index holds `(node, post)`.
    pub fn has_seen(&self, node: &Node, post: &PostId) -> (r: Result<bool, CoreError>)
        ensures
            r matches Ok(b) ==> b == self.seen_spec(node.public_key@, post.raw@),
            r is Err ==> r == Err::<bool, CoreError>(CoreError::StoreError),
    {
        let key = seen_key_of(node, post);
        store_err(tree_contains(&self.tables.seen, key.as_slice()))
    }

    /// Records that `node` has handled `post`.
    pub fn register_seen(&mut self, node: &Node, post: &PostId) -> (r: Result<(), CoreError>)
        ensures
            final(self).same_except_seen_posts(old(self)),
            final(self).posts_table() == old(self).posts_table(),
            r is Ok ==> final(self).seen_table().dom() == old(self).seen_table().dom().insert(
                seen_key(node.public_key@, post.raw@),
            ),
            r is Err ==> r == Err::<(), CoreError>(CoreError::StoreError),
    {
        let key = seen_key_of(node, post);
        let time = time_bytes();
        let r = store_err(tree_insert(&mut self.tables.seen, key.as_slice(), time.as_slice()));
        proof {
            if r is Ok {
                assert(self.seen_table().dom() =~= old(self).seen_table().dom().insert(
                    seen_key(node.public_key@, post.raw@),
                ));
            }
        }
        r
    }
}

/// `s` lists the members of `set`, each once.
pub open spec fn lists_set(s: Seq<Seq<u8>>, set: Set<Seq<u8>>) -> bool {
    &&& forall|i: int| 0 <= i < s.len() ==> set.contains(#[trigger] s[i])
    &&& forall|k: Seq<u8>| set.contains(k) ==> exists|i: int| 0 <= i < s.len() && #[trigger] s[i] == k
    &&& forall|i: int, j: int| 0 <= i < j < s.len() ==> s[i] != s[j]
}

/// The keys of a list of peers.
pub open spec fn node_keys(ns: Seq<Node>) -> Seq<Seq<u8>> {
    Seq::new(ns.len(), |i: int| ns[i].public_key@)
}

/// The keys of a list of rated peers.
pub open spec fn rated_keys(v: Seq<(Node, usize)>) -> Seq<Seq<u8>> {
    Seq::new(v.len(), |i: int| v[i].0.public_key@)
}

/// A duplicate-free list that holds exactly the members of a set has the
/// set's size, and the set is finite.
pub proof fn lemma_list_covers_set(s: Seq<Seq<u8>>, set: Set<Seq<u8>>)
    requires
        lists_set(s, set),
    ensures
        set.finite(),
        set.len() == s.len(),
{
    assert(s.to_set() =~= set);
    assert(s.no_duplicates()) by {
        assert forall|i: int, j: int|
            0 <= i < s.len() && 0 <= j < s.len() && i != j implies s[i] != s[j] by {
            if i > j {
                assert(s[j] != s[i]);
            }
        }
    }
    s.unique_seq_to_set();
}

impl NodeDB {
    /// The trusted peers, each once.
    pub fn trusted_nodes(&self) -> (r: Result<Vec<Node>, CoreError>)
        ensures
            r matches Ok(ns) ==> lists_set(node_keys(ns@), self.trust_set()),
            r is Err ==> r == Err::<Vec<Node>, CoreError>(CoreError::StoreError),
    {
        let keys = store_err(tree_keys(&self.tables.trusted))?;
        let n = keys.len();
        let mut out: Vec<Node> = Vec::new();
        let mut i: usize = 0;
        while i < n
            invariant
                i <= n,
                n == keys@.len(),
                out@.len() == i,
                forall|j: int| 0 <= j < i ==> (#[trigger] out@[j]).public_key@ == keys@[j]@,
            decreases n - i,
        {
            match to_key(keys[i].as_slice()) {
                Some(k) => out.push(Node { public_key: k }),
                None => return Err(CoreError::StoreError),
            }
            i = i + 1;
        }
        proof {
            let s = Seq::new(n as nat, |j: int| keys@[j]@);
            assert(node_keys(out@) =~= s);
            assert forall|j: int| 0 <= j < s.len() implies self.trust_set().contains(#[trigger] s[j]) by {
                assert(self.trust_table().contains_key(keys@[j]@));
            }
            assert forall|k: Seq<u8>| self.trust_set().contains(k) implies exists|j: int|
                0 <= j < s.len() && #[trigger] s[j] == k by {
                let j = choose|j: int| 0 <= j < keys@.len() && #[trigger] keys@[j]@ == k;
                assert(s[j] == k);
            }
        }
        Ok(out)
    }

    /// How many peers are trusted.
    pub fn num_trusted(&self) -> (r: Result<usize, CoreError>)
        ensures
            r matches Ok(n) ==> self.trust_set().finite() && n == self.trust_set().len(),
            r is Err ==> r == Err::<usize, CoreError>(CoreError::StoreError),
    {
        let ns = self.trusted_nodes()?;
        proof {
            lemma_list_covers_set(node_keys(ns@), self.trust_set());
        }
        Ok(ns.len())
    }

    /// Whether `node` is trusted.
    pub fn is_trusted(&self, node: &Node) -> (r: Result<bool, CoreError>)
        ensures
            r matches Ok(b) ==> b == self.trust_set().contains(node.public_key@),
            r is Err ==> r == Err::<bool, CoreError>(CoreError::StoreError),
    {
        store_err(tree_contains(&self.tables.trusted, node.public_key.as_slice()))
    }

    /// Adds `node` to the trust set, stamped with the current time.
    pub fn trust(&mut self, node: &Node) -> (r: Result<(), CoreError>)
        ensures
            final(self).same_except_trust(old(self)),
            r is Ok ==> final(self).trust_set() == old(self).trust_set().insert(node.public_key@),
            r is Err ==> r == Err::<(), CoreError>(CoreError::StoreError),
    {
        let time = time_bytes();
        let r = store_err(tree_insert(&mut self.tables.trusted, node.public_key.as_slice(), time.as_slice()));
        proof {
            if r is Ok {
                assert(self.trust_set() =~= old(self).trust_set().insert(node.public_key@));
            }
        }
        r
    }

    /// Removes `node` from the trust set. A peer that is not trusted is left
    /// alone; removing one of the last two trusted peers fails with
    /// `MinimumPeers`, so the set never drops below two by this call.
    pub fn untrust(&mut self, node: &Node) -> (r: Result<(), CoreError>)
        ensures
            final(self).same_except_trust(old(self)),
            r is Ok && !old(self).trust_set().contains(node.public_key@) ==> final(self).trust_table()
                == old(self).trust_table(),
            r is Ok && old(self).trust_set().contains(node.public_key@) ==> {
                &&& old(self).trust_set().finite()
                &&& old(self).trust_set().len() > 2
                &&& final(self).trust_set() == old(self).trust_set().remove(node.public_key@)
                &&& final(self).trust_set().len() >= 2
            },
            r != Err::<(), CoreError>(CoreError::StoreError) ==> (r == Err::<(), CoreError>(
                CoreError::MinimumPeers,
            ) <==> old(self).trust_set().contains(node.public_key@) && old(self).trust_set().finite()
                && old(self).trust_set().len() <= 2),
            r == Err::<(), CoreError>(CoreError::MinimumPeers) ==> final(self).trust_table() == old(
                self,
            ).trust_table(),
            r is Err ==> r == Err::<(), CoreError>(CoreError::StoreError) || r == Err::<(), CoreError>(
                CoreError::MinimumPeers,
            ),
    {
        if self.is_trusted(node)? {
            let n = self.num_trusted()?;
            if n <= 2 {
                return Err(CoreError::MinimumPeers);
            }
            let r = store_err(tree_remove(&mut self.tables.trusted, node.public_key.as_slice()));
            proof {
                if r is Ok {
                    assert(self.trust_set() =~= old(self).trust_set().remove(node.public_key@));
                }
            }
            r
        } else {
            Ok(())
        }
    }

    /// The rating of `node`, or `default_score` when it has none. Fails with
    /// `StoreError` when the stored rating is not 8 bytes.
    pub fn get_score(&self, node: &Node, default_score: usize) -> (r: Result<usize, CoreError>)
        ensures
            r matches Ok(s) ==> s == self.score_spec(node.public_key@, default_score as nat),
            !score_readable(self.score_table(), node.public_key@) ==> r is Err,
            r is Err ==> r == Err::<usize, CoreError>(CoreError::StoreError),
    {
        match store_err(tree_get(&self.tables.scores, node.public_key.as_slice()))? {
            Some(bytes) => {
                if bytes.len() != 8 {
                    return Err(CoreError::StoreError);
                }
                let v = read_le(bytes.as_slice(), 0, 8);
                proof {
                    assert(bytes@.subrange(0, 8) =~= bytes@);
                    crate::bytes::lemma_le_value_bound(bytes@);
                    crate::bytes::lemma_byte_cap_values();
                }
                if v > usize::MAX as u128 {
                    return Err(CoreError::StoreError);
                }
                Ok(v as usize)
            },
            None => Ok(default_score),
        }
    }

    /// Stores `value` as the rating of `node`.
    pub fn set_score(&mut self, node: &Node, value: usize) -> (r: Result<(), CoreError>)
        ensures
            final(self).same_except_scores(old(self)),
            r is Ok ==> final(self).score_table() == old(self).score_table().insert(
                node.public_key@,
                le_bytes(value as nat, 8),
            ),
            r is Ok ==> forall|d: nat| #[trigger] final(self).score_spec(node.public_key@, d) == value,
            r is Ok ==> score_readable(final(self).score_table(), node.public_key@),
            r is Err ==> r == Err::<(), CoreError>(CoreError::StoreError),
    {
        let mut bytes: Vec<u8> = Vec::new();
        push_le(&mut bytes, value as u128, 8);
        let r = store_err(tree_insert(&mut self.tables.scores, node.public_key.as_slice(), bytes.as_slice()));
        proof {
            crate::bytes::lemma_byte_cap_values();
            crate::bytes::lemma_le_round_trip(value as nat, 8);
            crate::bytes::lemma_le_bytes_len(value as nat, 8);
        }
        r
    }

    /// Every trusted peer, once each, with its rating.
    pub fn get_trusted(&self) -> (r: Result<Vec<(Node, usize)>, CoreError>)
        ensures
            r matches Ok(v) ==> {
                &&& lists_set(rated_keys(v@), self.trust_set())
                &&& forall|i: int|
                    0 <= i < v.len() ==> #[trigger] v[i].1 == self.score_spec(
                        v[i].0.public_key@,
                        DEFAULT_SCORE as nat,
                    )
            },
            r is Err ==> r == Err::<Vec<(Node, usize)>, CoreError>(CoreError::StoreError),
    {
        let ns = self.trusted_nodes()?;
        let n = ns.len();
        let mut out: Vec<(Node, usize)> = Vec::new();
        let mut i: usize = 0;
        while i < n
            invariant
                i <= n,
                n == ns@.len(),
                out@.len() == i,
                forall|j: int| 0 <= j < i ==> (#[trigger] out@[j]).0 == ns@[j],
                forall|j: int| 0 <= j < i ==> (#[trigger] out@[j]).1 == self.score_spec(ns@[j].public_key@, DEFAULT_SCORE as nat),
            decreases n - i,
        {
            let s = self.get_score(&ns[i], DEFAULT_SCORE)?;
            out.push((ns[i], s));
            i = i + 1;
        }
        proof {
            assert(rated_keys(out@) =~= node_keys(ns@));
        }
        Ok(out)
    }
}

/// The recipient of a forwarded copy: the receiver of its last hop.
pub open spec fn recipient(out: OutgoingPost) -> Seq<u8> {
    out.history@.last().to.public_key@
}

/// Whether `k` sent `post` to us along its history.
pub open spec fn in_history(post: IncomingPost, k: Seq<u8>) -> bool {
    exists|j: int| 0 <= j < post.history@.len() && #[trigger] post.history@[j].from.public_key@ == k
}

/// A trusted peer that, before `post` arrived, was not known to have it: not
/// in the seen index, not us, and not a sender in its history. Exactly these
/// get a copy.
pub open spec fn owed_copy(db: NodeDB, post: IncomingPost, k: Seq<u8>) -> bool {
    &&& db.trust_set().contains(k)
    &&& !db.seen_spec(k, post_id_of(post.post))
    &&& k != db.us.node.public_key@
    &&& !in_history(post, k)
}

/// What a successful `receive` of `post` did, from `before` to `after`.
pub open spec fn received(before: NodeDB, after: NodeDB, post: IncomingPost, out: Seq<OutgoingPost>) -> bool {
    let id = post_id_of(post.post);
    &&& !before.seen_spec(before.us.node.public_key@, id)
    &&& after.seen_spec(before.us.node.public_key@, id)
    &&& forall|j: int| 0 <= j < post.history@.len() ==> after.seen_spec(#[trigger] post.history@[j].from.public_key@, id)
    &&& forall|k: Seq<u8>| before.trust_set().contains(k) ==> after.seen_spec(k, id)
    &&& forall|key: Seq<u8>| #[trigger] after.seen_table().contains_key(key) <==> (before.seen_table().contains_key(key)
        || key == seen_key(before.us.node.public_key@, id)
        || (exists|j: int| 0 <= j < post.history@.len() && key == seen_key(#[trigger] post.history@[j].from.public_key@, id))
        || (exists|i: int| 0 <= i < out.len() && key == seen_key(recipient(#[trigger] out[i]), id)))
    &&& after.posts_table() == before.posts_table().insert(id, incoming_bytes(post))
    &&& forall|i: int| 0 <= i < out.len() ==> forwarded_copy(#[trigger] out[i], post, before.us, out[i].history@.last().to)
    &&& forall|i: int| 0 <= i < out.len() ==> owed_copy(before, post, #[trigger] recipient(out[i]))
    &&& forall|k: Seq<u8>| owed_copy(before, post, k) ==> exists|i: int| 0 <= i < out.len() && #[trigger] recipient(out[i]) == k
    &&& forall|i: int, j: int| 0 <= i < j < out.len() ==> recipient(out[i]) != recipient(out[j])
}

/// What `receive` of `post` does, from `before` to `after`, given its result
/// `r`: it fails with `AlreadySeen`, changing nothing, exactly when we had
/// seen the post (unless the store fails); otherwise it succeeds as
/// `received` says.
pub open spec fn receive_outcome(before: NodeDB, after: NodeDB, post: IncomingPost, r: Result<Vec<OutgoingPost>, CoreError>) -> bool {
    let id = post_id_of(post.post);
    let us = before.us.node.public_key@;
    &&& after.same_except_seen_posts(&before)
    &&& r != Err::<Vec<OutgoingPost>, CoreError>(CoreError::StoreError) ==> (r == Err::<Vec<OutgoingPost>, CoreError>(
        CoreError::AlreadySeen,
    ) <==> before.seen_spec(us, id))
    &&& r == Err::<Vec<OutgoingPost>, CoreError>(CoreError::AlreadySeen) ==> after.seen_table() == before.seen_table()
        && after.posts_table() == before.posts_table()
    &&& r is Err ==> r == Err::<Vec<OutgoingPost>, CoreError>(CoreError::AlreadySeen) || r == Err::<
        Vec<OutgoingPost>,
        CoreError,
    >(CoreError::StoreError)
    &&& r matches Ok(out) ==> received(before, after, post, out@)
}

proof fn lemma_seen_key_injective(a: Seq<u8>, b: Seq<u8>, id: Seq<u8>)
    requires
        seen_key(a, id) == seen_key(b, id),
    ensures
        a == b,
{
    assert((a + id).len() == (b + id).len());
    assert(a =~= (a + id).subrange(0, a.len() as int));
    assert(b =~= (b + id).subrange(0, b.len() as int));
}

/// The seen keys of the first `n` senders in a history.
spec fn hop_keys(h: Seq<crate::post::Path>, id: Seq<u8>, n: int) -> Set<Seq<u8>> {
    Set::new(|key: Seq<u8>| exists|j: int| 0 <= j < n && key == seen_key(#[trigger] h[j].from.public_key@, id))
}

/// The seen keys of the first `n` peers of a list.
spec fn node_seen_keys(ns: Seq<Node>, id: Seq<u8>, n: int) -> Set<Seq<u8>> {
    Set::new(|key: Seq<u8>| exists|j: int| 0 <= j < n && key == seen_key(#[trigger] ns[j].public_key@, id))
}

proof fn lemma_hop_keys_step(h: Seq<crate::post::Path>, id: Seq<u8>, i: int)
    requires
        0 <= i < h.len(),
    ensures
        hop_keys(h, id, i + 1) == hop_keys(h, id, i).insert(seen_key(h[i].from.public_key@, id)),
{
    let nk = seen_key(h[i].from.public_key@, id);
    assert forall|key: Seq<u8>| hop_keys(h, id, i + 1).contains(key) <==> hop_keys(h, id, i).insert(nk).contains(key) by {
        if hop_keys(h, id, i + 1).contains(key) {
            let j = choose|j: int| 0 <= j < i + 1 && key == seen_key(#[trigger] h[j].from.public_key@, id);
            if j < i {
                assert(hop_keys(h, id, i).contains(key));
            }
        }
        if hop_keys(h, id, i).contains(key) {
            let j = choose|j: int| 0 <= j < i && key == seen_key(#[trigger] h[j].from.public_key@, id);
            assert(0 <= j < i + 1 && key == seen_key(h[j].from.public_key@, id));
        }
        if key == nk {
            assert(0 <= i < i + 1 && key == seen_key(h[i].from.public_key@, id));
        }
    }
    assert(hop_keys(h, id, i + 1) =~= hop_keys(h, id, i).insert(nk));
}

proof fn lemma_node_seen_keys_step(ns: Seq<Node>, id: Seq<u8>, i: int)
    requires
        0 <= i < ns.len(),
    ensures
        node_seen_keys(ns, id, i + 1) == node_seen_keys(ns, id, i).insert(seen_key(ns[i].public_key@, id)),
{
    let nk = seen_key(ns[i].public_key@, id);
    assert forall|key: Seq<u8>| node_seen_keys(ns, id, i + 1).contains(key) <==> node_seen_keys(ns, id, i).insert(nk).contains(key) by {
        if node_seen_keys(ns, id, i + 1).contains(key) {
            let j = choose|j: int| 0 <= j < i + 1 && key == seen_key(#[trigger] ns[j].public_key@, id);
            if j < i {
                assert(node_seen_keys(ns, id, i).contains(key));
            }
        }
        if node_seen_keys(ns, id, i).contains(key) {
            let j = choose|j: int| 0 <= j < i && key == seen_key(#[trigger] ns[j].public_key@, id);
            assert(0 <= j < i + 1 && key == seen_key(ns[j].public_key@, id));
        }
        if key == nk {
            assert(0 <= i < i + 1 && key == seen_key(ns[i].public_key@, id));
        }
    }
    assert(node_seen_keys(ns, id, i + 1) =~= node_seen_keys(ns, id, i).insert(nk));
}

/// A peer of a duplicate-free list is not among the seen keys of the peers
/// before it.
proof fn lemma_node_seen_keys_fresh(ns: Seq<Node>, id: Seq<u8>, i: int)
    requires
        0 <= i < ns.len(),
        forall|a: int, b: int| 0 <= a < b < ns.len() ==> ns[a].public_key@ != ns[b].public_key@,
    ensures
        !node_seen_keys(ns, id, i).contains(seen_key(ns[i].public_key@, id)),
{
    let kk = seen_key(ns[i].public_key@, id);
    if node_seen_keys(ns, id, i).contains(kk) {
        let j = choose|j: int| 0 <= j < i && kk == seen_key(#[trigger] ns[j].public_key@, id);
        lemma_seen_key_injective(ns[j].public_key@, ns[i].public_key@, id);
    }
}

impl NodeDB {
    /// The stored post `post`. Fails with `UnknownPost` when there is none,
    /// with `CorruptRecord` when its record does not decode, and with
    /// `StoreError` when the store fails.
    pub fn resolve(&self, post: &PostId) -> (r: Result<IncomingPost, CoreError>)
        ensures
            r matches Ok(p) ==> self.posts_table().contains_key(post.raw@) && incoming_bytes(p)
                == self.posts_table()[post.raw@],
            r != Err::<IncomingPost, CoreError>(CoreError::StoreError) ==> (r == Err::<
                IncomingPost,
                CoreError,
            >(CoreError::UnknownPost) <==> !self.posts_table().contains_key(post.raw@)),
            r == Err::<IncomingPost, CoreError>(CoreError::CorruptRecord) ==> self.posts_table().contains_key(post.raw@)
                && forall|q: IncomingPost| incoming_bytes(q) != self.posts_table()[post.raw@],
            forall|q: IncomingPost| self.posts_table().contains_key(post.raw@) && #[trigger] incoming_bytes(q)
                == self.posts_table()[post.raw@] ==> (r == Err::<IncomingPost, CoreError>(CoreError::StoreError)
                || (r matches Ok(p) && same_incoming(p, q))),
            r is Err ==> r == Err::<IncomingPost, CoreError>(CoreError::UnknownPost) || r == Err::<
                IncomingPost,
                CoreError,
            >(CoreError::CorruptRecord) || r == Err::<IncomingPost, CoreError>(CoreError::StoreError),
    {
        match store_err(tree_get(&self.tables.posts, post.raw.as_slice()))? {
            Some(bytes) => match decode_incoming(bytes.as_slice()) {
                Some(p) => Ok(p),
                None => Err(CoreError::CorruptRecord),
            },
            None => Err(CoreError::UnknownPost),
        }
    }

    /// Marks each listed peer not yet known to have `post` as having it, and
    /// makes its forwarded copy. `chosen` gives, for each copy, the index of
    /// its recipient in `ts`.
    fn fan_out(&mut self, post: &IncomingPost, us: &Us, id: &PostId, ts: &Vec<Node>) -> (r: Result<
        (Vec<OutgoingPost>, Ghost<Seq<int>>),
        CoreError,
    >)
        requires
            id.raw@ == post_id_of(post.post),
            forall|a: int, b: int| 0 <= a < b < ts@.len() ==> ts@[a].public_key@ != ts@[b].public_key@,
        ensures
            final(self).same_except_seen_posts(old(self)),
            final(self).posts_table() == old(self).posts_table(),
            r is Err ==> r == Err::<(Vec<OutgoingPost>, Ghost<Seq<int>>), CoreError>(CoreError::StoreError),
            r matches Ok((out, chosen)) ==> {
                &&& final(self).seen_table().dom() == old(self).seen_table().dom().union(
                    node_seen_keys(ts@, id.raw@, ts@.len() as int),
                )
                &&& chosen@.len() == out@.len()
                &&& forall|a: int| 0 <= a < out@.len() ==> 0 <= #[trigger] chosen@[a] < ts@.len()
                &&& forall|a: int| 0 <= a < out@.len() ==> recipient(#[trigger] out@[a]) == ts@[chosen@[a]].public_key@
                &&& forall|a: int| 0 <= a < out@.len() ==> !old(self).seen_spec(ts@[#[trigger] chosen@[a]].public_key@, id.raw@)
                &&& forall|a: int| 0 <= a < out@.len() ==> forwarded_copy(#[trigger] out@[a], *post, *us, out@[a].history@.last().to)
                &&& forall|a: int, b: int| 0 <= a < b < out@.len() ==> chosen@[a] < chosen@[b]
                &&& forall|j: int| 0 <= j < ts@.len() && !old(self).seen_spec(#[trigger] ts@[j].public_key@, id.raw@) ==> chosen@.contains(j)
            },
    {
        let ghost old_dom = self.seen_table().dom();
        let m = ts.len();
        let mut result: Vec<OutgoingPost> = Vec::new();
        let ghost mut chosen: Seq<int> = Seq::empty();
        let mut k: usize = 0;
        assert(node_seen_keys(ts@, id.raw@, 0) =~= Set::empty());
        assert(self.seen_table().dom() =~= old_dom.union(node_seen_keys(ts@, id.raw@, 0)));
        while k < m
            invariant
                k <= m,
                m == ts@.len(),
                id.raw@ == post_id_of(post.post),
                forall|a: int, b: int| 0 <= a < b < ts@.len() ==> ts@[a].public_key@ != ts@[b].public_key@,
                self.same_except_seen_posts(old(self)),
                self.posts_table() == old(self).posts_table(),
                old_dom == old(self).seen_table().dom(),
                self.seen_table().dom() == old_dom.union(node_seen_keys(ts@, id.raw@, k as int)),
                chosen.len() == result@.len(),
                forall|a: int| 0 <= a < result@.len() ==> 0 <= #[trigger] chosen[a] < k,
                forall|a: int| 0 <= a < result@.len() ==> recipient(#[trigger] result@[a]) == ts@[chosen[a]].public_key@,
                forall|a: int| 0 <= a < result@.len() ==> !old_dom.contains(seen_key(ts@[#[trigger] chosen[a]].public_key@, id.raw@)),
                forall|a: int| 0 <= a < result@.len() ==> forwarded_copy(#[trigger] result@[a], *post, *us, result@[a].history@.last().to),
                forall|a: int, b: int| 0 <= a < b < result@.len() ==> chosen[a] < chosen[b],
                forall|j: int| 0 <= j < k && !old_dom.contains(seen_key(#[trigger] ts@[j].public_key@, id.raw@)) ==> chosen.contains(j),
            decreases m - k,
        {
            let node = ts[k];
            let seen = self.has_seen(&node, &id)?;
            proof {
                lemma_node_seen_keys_fresh(ts@, id.raw@, k as int);
                lemma_node_seen_keys_step(ts@, id.raw@, k as int);
            }
            if !seen {
                self.register_seen(&node, &id)?;
                let copy = OutgoingPost::from_incoming(post, us, &node);
                let ghost before = chosen;
                result.push(copy);
                proof {
                    chosen = chosen.push(k as int);
                    assert forall|j: int| 0 <= j < k + 1 && !old_dom.contains(seen_key(#[trigger] ts@[j].public_key@, id.raw@)) implies chosen.contains(j) by {
                        if j < k {
                            assert(before.contains(j));
                            let a = choose|a: int| 0 <= a < before.len() && before[a] == j;
                            assert(chosen[a] == j);
                        } else {
                            assert(chosen[chosen.len() - 1] == j);
                        }
                    }
                }
            }
            proof {
                assert(self.seen_table().dom() =~= old_dom.union(node_seen_keys(ts@, id.raw@, k + 1)));
            }
            k = k + 1;
        }
        Ok((result, Ghost(chosen)))
    }

    /// Takes in a post: fails with `AlreadySeen` if we have it already;
    /// otherwise marks it seen by us and by every sender in its history,
    /// stores it, and returns one forwarded copy for each trusted peer not
    /// yet known to have it, marking that peer as having it.
    pub fn receive(&mut self, post: &IncomingPost) -> (r: Result<Vec<OutgoingPost>, CoreError>)
        ensures
            receive_outcome(*old(self), *final(self), *post, r),
    {
        let us = self.us;
        let id = post.get_id();
        let ghost usk = seen_key(us.node.public_key@, id.raw@);
        let ghost old_dom = self.seen_table().dom();
        if self.has_seen(&us.node, &id)? {
            return Err(CoreError::AlreadySeen);
        }
        self.register_seen(&us.node, &id)?;
        let n = post.history.len();
        let mut i: usize = 0;
        assert(hop_keys(post.history@, id.raw@, 0) =~= Set::empty());
        assert(self.seen_table().dom() =~= old_dom.insert(usk).union(hop_keys(post.history@, id.raw@, 0)));
        while i < n
            invariant
                i <= n,
                n == post.history@.len(),
                self.same_except_seen_posts(old(self)),
                self.posts_table() == old(self).posts_table(),
                us == self.us,
                id.raw@ == post_id_of(post.post),
                usk == seen_key(us.node.public_key@, id.raw@),
                self.seen_table().dom() == old_dom.insert(usk).union(hop_keys(post.history@, id.raw@, i as int)),
            decreases n - i,
        {
            self.register_seen(&post.history[i].from, &id)?;
            proof {
                lemma_hop_keys_step(post.history@, id.raw@, i as int);
                assert(self.seen_table().dom() =~= old_dom.insert(usk).union(hop_keys(post.history@, id.raw@, i + 1)));
            }
            i = i + 1;
        }
        let bytes = encode_incoming(post);
        store_err(tree_insert(&mut self.tables.posts, id.raw.as_slice(), bytes.as_slice()))?;
        let ghost mid = self.seen_table().dom();
        let ts = self.trusted_nodes()?;
        proof {
            assert forall|a: int, b: int| 0 <= a < b < ts@.len() implies ts@[a].public_key@ != ts@[b].public_key@ by {
                assert(node_keys(ts@)[a] != node_keys(ts@)[b]);
            }
        }
        let (result, chosen) = self.fan_out(post, &us, &id, &ts)?;
        proof {
            let h = post.history@;
            let ub = us.node.public_key@;
            let idr = id.raw@;
            let m = ts@.len();
            // what `mid` holds, in terms of the state before the call
            assert forall|x: Seq<u8>| #[trigger] mid.contains(seen_key(x, idr)) <==> (old(self).seen_spec(x, idr) || x == ub || in_history(*post, x)) by {
                let key = seen_key(x, idr);
                if mid.contains(key) {
                    if key == usk {
                        lemma_seen_key_injective(x, ub, idr);
                    } else if hop_keys(h, idr, n as int).contains(key) {
                        let j = choose|j: int| 0 <= j < n && key == seen_key(#[trigger] h[j].from.public_key@, idr);
                        lemma_seen_key_injective(x, h[j].from.public_key@, idr);
                    }
                }
                if in_history(*post, x) {
                    let j = choose|j: int| 0 <= j < h.len() && #[trigger] h[j].from.public_key@ == x;
                    assert(hop_keys(h, idr, n as int).contains(key));
                }
            }
            assert forall|j: int| 0 <= j < h.len() implies #[trigger] self.seen_spec(h[j].from.public_key@, idr) by {
                assert(in_history(*post, h[j].from.public_key@));
                assert(mid.contains(seen_key(h[j].from.public_key@, idr)));
            }
            assert(mid.contains(seen_key(ub, idr)));
            assert forall|x: Seq<u8>| old(self).trust_set().contains(x) implies self.seen_spec(x, idr) by {
                let j = choose|j: int| 0 <= j < node_keys(ts@).len() && #[trigger] node_keys(ts@)[j] == x;
                assert(ts@[j].public_key@ == x);
                assert(0 <= j < m && seen_key(x, idr) == seen_key(ts@[j].public_key@, idr));
                assert(node_seen_keys(ts@, idr, m as int).contains(seen_key(x, idr)));
            }
            assert forall|a: int| 0 <= a < result@.len() implies owed_copy(*old(self), *post, #[trigger] recipient(result@[a])) by {
                let c = chosen@[a];
                assert(node_keys(ts@)[c] == ts@[c].public_key@);
                assert(old(self).trust_set().contains(node_keys(ts@)[c]));
            }
            assert forall|x: Seq<u8>| owed_copy(*old(self), *post, x) implies exists|a: int| 0 <= a < result@.len() && #[trigger] recipient(result@[a]) == x by {
                let j = choose|j: int| 0 <= j < node_keys(ts@).len() && #[trigger] node_keys(ts@)[j] == x;
                assert(ts@[j].public_key@ == x);
                assert(!mid.contains(seen_key(x, idr)));
                assert(chosen@.contains(j));
                let a = choose|a: int| 0 <= a < chosen@.len() && chosen@[a] == j;
                assert(recipient(result@[a]) == x);
            }
            assert forall|key: Seq<u8>| #[trigger] self.seen_table().contains_key(key) <==> (old(self).seen_table().contains_key(key)
                || key == seen_key(ub, idr)
                || (exists|j: int| 0 <= j < h.len() && key == seen_key(#[trigger] h[j].from.public_key@, idr))
                || (exists|i: int| 0 <= i < result@.len() && key == seen_key(recipient(#[trigger] result@[i]), idr))) by {
                if self.seen_table().contains_key(key) {
                    if !mid.contains(key) {
                        assert(node_seen_keys(ts@, idr, m as int).contains(key));
                        let j = choose|j: int| 0 <= j < m && key == seen_key(#[trigger] ts@[j].public_key@, idr);
                        assert(!old(self).seen_spec(ts@[j].public_key@, idr));
                        assert(chosen@.contains(j));
                        let a = choose|a: int| 0 <= a < chosen@.len() && chosen@[a] == j;
                        assert(recipient(result@[a]) == ts@[j].public_key@);
                        assert(key == seen_key(recipient(result@[a]), idr));
                    } else if !old(self).seen_table().contains_key(key) && key != usk {
                        assert(hop_keys(h, idr, n as int).contains(key));
                        let j = choose|j: int| 0 <= j < n && key == seen_key(#[trigger] h[j].from.public_key@, idr);
                        assert(key == seen_key(h[j].from.public_key@, idr));
                    }
                }
                if exists|j: int| 0 <= j < h.len() && key == seen_key(#[trigger] h[j].from.public_key@, idr) {
                    let j = choose|j: int| 0 <= j < h.len() && key == seen_key(#[trigger] h[j].from.public_key@, idr);
                    assert(hop_keys(h, idr, n as int).contains(key));
                }
                if exists|i: int| 0 <= i < result@.len() && key == seen_key(recipient(#[trigger] result@[i]), idr) {
                    let i = choose|i: int| 0 <= i < result@.len() && key == seen_key(recipient(#[trigger] result@[i]), idr);
                    let c = chosen@[i];
                    assert(0 <= c < m && key == seen_key(ts@[c].public_key@, idr));
                    assert(node_seen_keys(ts@, idr, m as int).contains(key));
                }
            }
            assert forall|a: int, b: int| 0 <= a < b < result@.len() implies recipient(result@[a]) != recipient(result@[b]) by {
                assert(chosen@[a] < chosen@[b]);
                assert(ts@[chosen@[a]].public_key@ != ts@[chosen@[b]].public_key@);
            }
        }
        Ok(result)
    }
}

} // verus!
