//! The two ways a post enters the engine: written here, or handed over by a
//! peer.

use vstd::prelude::*;

use crate::db::{received, NodeDB};
use crate::error::CoreError;
use crate::post::{author_signed, IncomingPost, Node, OutgoingPost, RawPost};

verus! {

/// The keys of the first `n` peers of a list.
pub open spec fn first_keys(ns: Seq<Node>, n: int) -> Set<Seq<u8>> {
    Set::new(|k: Seq<u8>| exists|j: int| 0 <= j < n && #[trigger] ns[j].public_key@ == k)
}

/// Who a peer's post makes us trust before we take it in: the listed
/// bootstrap peers; or, when we are a bootstrap node (no list), the peer that
/// sent it to us, if it came over a hop.
pub open spec fn trusted_on_arrival(db: NodeDB, post: IncomingPost) -> Set<Seq<u8>> {
    match db.bootstrap_nodes {
        Some(b) => first_keys(b@, b@.len() as int),
        None => if post.history@.len() > 0 {
            set![post.history@.last().from.public_key@]
        } else {
            Set::empty()
        },
    }
}

/// What a successful `share_post` of `post` did: trusted the peers it makes
/// us trust, then received it.
pub open spec fn shared(before: NodeDB, after: NodeDB, post: IncomingPost, out: Seq<OutgoingPost>) -> bool {
    &&& after.trust_set() == before.trust_set().union(trusted_on_arrival(before, post))
    &&& exists|mid: NodeDB| {
        &&& mid.same_except_trust(&before)
        &&& mid.trust_set() == before.trust_set().union(trusted_on_arrival(before, post))
        &&& #[trigger] received(mid, after, post, out)
    }
}

proof fn lemma_first_keys_step(ns: Seq<Node>, i: int)
    requires
        0 <= i < ns.len(),
    ensures
        first_keys(ns, i + 1) == first_keys(ns, i).insert(ns[i].public_key@),
{
    assert forall|k: Seq<u8>| first_keys(ns, i + 1).contains(k) <==> first_keys(ns, i).insert(ns[i].public_key@).contains(k) by {
        if first_keys(ns, i + 1).contains(k) {
            let j = choose|j: int| 0 <= j < i + 1 && #[trigger] ns[j].public_key@ == k;
            if j < i {
                assert(first_keys(ns, i).contains(k));
            }
        }
        if first_keys(ns, i).contains(k) {
            let j = choose|j: int| 0 <= j < i && #[trigger] ns[j].public_key@ == k;
            assert(0 <= j < i + 1 && ns[j].public_key@ == k);
        }
        if k == ns[i].public_key@ {
            assert(0 <= i < i + 1 && ns[i].public_key@ == k);
        }
    }
    assert(first_keys(ns, i + 1) =~= first_keys(ns, i).insert(ns[i].public_key@));
}

impl NodeDB {
    /// Writes a post: a fresh message id, our signature over its
    /// fingerprint, no history; then takes it in like any other.
    pub fn send_post(&mut self, content: String) -> (r: Result<Vec<OutgoingPost>, CoreError>)
        ensures
            old(self).wf() ==> r != Err::<Vec<OutgoingPost>, CoreError>(CoreError::Malformed),
            r is Err ==> r == Err::<Vec<OutgoingPost>, CoreError>(CoreError::Malformed) || r == Err::<Vec<OutgoingPost>, CoreError>(CoreError::AlreadySeen) || r == Err::<Vec<OutgoingPost>, CoreError>(CoreError::StoreError),
            r matches Ok(out) ==> exists|p: IncomingPost| {
                &&& p.post.author == old(self).us.node
                &&& p.post.content == content
                &&& p.history@.len() == 0
                &&& author_signed(p.post, p.signature@)
                &&& #[trigger] received(*old(self), *final(self), p, out@)
            },
    {
        let us = self.us;
        let raw = RawPost::new(us.node, content);
        let id = raw.hash();
        let signature = us.sign(id.as_slice());
        let history: Vec<crate::post::Path> = Vec::new();
        let post = IncomingPost::new(&raw, &history, &signature, &us)?;
        let out = self.receive(&post)?;
        proof {
            assert(received(*old(self), *self, post, out@));
        }
        Ok(out)
    }

    /// Takes in a post handed over by a peer. First trusts the bootstrap
    /// peers, or, on a bootstrap node, the peer that sent it; then receives
    /// it.
    pub fn share_post(&mut self, post: &IncomingPost) -> (r: Result<Vec<OutgoingPost>, CoreError>)
        ensures
            r is Err ==> r == Err::<Vec<OutgoingPost>, CoreError>(CoreError::AlreadySeen) || r == Err::<Vec<OutgoingPost>, CoreError>(CoreError::StoreError),
            r matches Ok(out) ==> shared(*old(self), *final(self), *post, out@),
    {
        let ghost start = *self;
        let bootstrap: Option<Vec<Node>> = match &self.bootstrap_nodes {
            Some(nodes) => Some(copy_nodes(nodes)),
            None => None,
        };
        match bootstrap {
            Some(nodes) => {
                let n = nodes.len();
                let mut i: usize = 0;
                assert(first_keys(nodes@, 0) =~= Set::empty());
                assert(self.trust_set() =~= start.trust_set().union(first_keys(nodes@, 0)));
                while i < n
                    invariant
                        i <= n,
                        n == nodes@.len(),
                        self.same_except_trust(&start),
                        start == *old(self),
                        self.trust_set() == start.trust_set().union(first_keys(nodes@, i as int)),
                    decreases n - i,
                {
                    self.trust(&nodes[i])?;
                    proof {
                        lemma_first_keys_step(nodes@, i as int);
                        assert(self.trust_set() =~= start.trust_set().union(first_keys(nodes@, i + 1)));
                    }
                    i = i + 1;
                }
            },
            None => {
                let n = post.history.len();
                if n > 0 {
                    self.trust(&post.history[n - 1].from)?;
                    assert(self.trust_set() =~= start.trust_set().union(trusted_on_arrival(start, *post)));
                } else {
                    assert(self.trust_set() =~= start.trust_set().union(trusted_on_arrival(start, *post)));
                }
            },
        }
        let ghost mid = *self;
        let out = self.receive(post)?;
        proof {
            assert(received(mid, *self, *post, out@));
        }
        Ok(out)
    }
}

/// A copy of a list of peers.
fn copy_nodes(v: &Vec<Node>) -> (r: Vec<Node>)
    ensures
        r@ == v@,
{
    let n = v.len();
    let mut out: Vec<Node> = Vec::new();
    let mut i: usize = 0;
    while i < n
        invariant
            i <= n,
            n == v@.len(),
            out@ == v@.subrange(0, i as int),
        decreases n - i,
    {
        out.push(v[i]);
        assert(v@.subrange(0, (i + 1) as int) =~= v@.subrange(0, i as int).push(v@[i as int]));
        i = i + 1;
    }
    assert(v@.subrange(0, n as int) =~= v@);
    out
}

} // verus!
